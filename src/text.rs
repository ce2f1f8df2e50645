//! Character classes and trimming over the character view of strings.

use vstd::prelude::*;
use vstd::string::*;

verus! {

/// The Unicode `White_Space` property: the characters that `str::trim`
/// removes and that a `\s` class matches.
pub open spec fn is_white_space(c: char) -> bool {
    let u = c as u32;
    (0x9 <= u && u <= 0xd) || u == 0x20 || u == 0x85 || u == 0xa0 || u == 0x1680 || (0x2000 <= u
        && u <= 0x200a) || u == 0x2028 || u == 0x2029 || u == 0x202f || u == 0x205f || u == 0x3000
}

pub open spec fn is_ascii_digit(c: char) -> bool {
    '0' <= c && c <= '9'
}

pub open spec fn is_ascii_letter(c: char) -> bool {
    ('a' <= c && c <= 'z') || ('A' <= c && c <= 'Z')
}

/// Index of the first character at or after `i` that is not white space.
pub open spec fn skip_ws(s: Seq<char>, i: int) -> int
    decreases s.len() - i,
{
    if 0 <= i < s.len() && is_white_space(s[i]) {
        skip_ws(s, i + 1)
    } else {
        i
    }
}

/// End of `s.subrange(0, j)` once the white space at its end is dropped.
pub open spec fn skip_ws_back(s: Seq<char>, j: int) -> int
    decreases j,
{
    if 0 < j <= s.len() && is_white_space(s[j - 1]) {
        skip_ws_back(s, j - 1)
    } else {
        j
    }
}

/// `s` without its leading white space.
pub open spec fn trim_start(s: Seq<char>) -> Seq<char> {
    s.subrange(skip_ws(s, 0), s.len() as int)
}

/// `s` without its trailing white space.
pub open spec fn trim_end(s: Seq<char>) -> Seq<char> {
    s.subrange(0, skip_ws_back(s, s.len() as int))
}

/// `s` without white space at either end.
pub open spec fn trim(s: Seq<char>) -> Seq<char> {
    trim_end(trim_start(s))
}

/// Unicode lower case of a string, as `str::to_lowercase` computes it.
pub uninterp spec fn lower_of(s: Seq<char>) -> Seq<char>;

/// Two titles are the same title when their lower-case forms agree.
pub open spec fn same_title(a: Seq<char>, b: Seq<char>) -> bool {
    lower_of(a) == lower_of(b)
}

pub proof fn lemma_skip_ws(s: Seq<char>, i: int)
    requires
        0 <= i <= s.len(),
    ensures
        i <= skip_ws(s, i) <= s.len(),
        forall|k: int| i <= k < skip_ws(s, i) ==> is_white_space(#[trigger] s[k]),
        skip_ws(s, i) < s.len() ==> !is_white_space(s[skip_ws(s, i)]),
    decreases s.len() - i,
{
    if i < s.len() && is_white_space(s[i]) {
        lemma_skip_ws(s, i + 1);
    }
}

pub proof fn lemma_skip_ws_back(s: Seq<char>, j: int)
    requires
        0 <= j <= s.len(),
    ensures
        0 <= skip_ws_back(s, j) <= j,
        forall|k: int| skip_ws_back(s, j) <= k < j ==> is_white_space(#[trigger] s[k]),
        skip_ws_back(s, j) > 0 ==> !is_white_space(s[skip_ws_back(s, j) - 1]),
    decreases j,
{
    if 0 < j && is_white_space(s[j - 1]) {
        lemma_skip_ws_back(s, j - 1);
    }
}

/// A string that ends in a character other than white space keeps that
/// character, and so stays non-empty, when trimmed.
pub proof fn lemma_trim_keeps_last(s: Seq<char>)
    requires
        s.len() > 0,
        !is_white_space(s[s.len() - 1]),
    ensures
        trim(s).len() > 0,
{
    let a = skip_ws(s, 0);
    lemma_skip_ws(s, 0);
    assert(a < s.len());
    let t = trim_start(s);
    assert(t[t.len() - 1] == s[s.len() - 1]);
    lemma_skip_ws_back(t, t.len() as int);
}

/// Exec form of [`is_white_space`].
pub fn is_white_space_char(c: char) -> (r: bool)
    ensures
        r == is_white_space(c),
{
    let u = c as u32;
    (0x9 <= u && u <= 0xd) || u == 0x20 || u == 0x85 || u == 0xa0 || u == 0x1680 || (0x2000 <= u
        && u <= 0x200a) || u == 0x2028 || u == 0x2029 || u == 0x202f || u == 0x205f || u == 0x3000
}

/// The character views of a sequence of strings.
pub open spec fn strings_view(s: Seq<String>) -> Seq<Seq<char>> {
    s.map_values(|x: String| x@)
}

/// The character views of a sequence of name and value pairs.
pub open spec fn pairs_view(s: Seq<(String, String)>) -> Seq<(Seq<char>, Seq<char>)> {
    s.map_values(|e: (String, String)| (e.0@, e.1@))
}

/// Exec form of [`is_ascii_digit`].
pub fn is_ascii_digit_char(c: char) -> (r: bool)
    ensures
        r == is_ascii_digit(c),
{
    '0' <= c && c <= '9'
}

/// The characters of `s`, in order.
pub fn chars_of(s: &str) -> (r: Vec<char>)
    ensures
        r@ == s@,
{
    let n = s.unicode_len();
    let mut r: Vec<char> = Vec::new();
    let mut i: usize = 0;
    while i < n
        invariant
            n == s@.len(),
            i <= n,
            r@ == s@.subrange(0, i as int),
        decreases n - i,
    {
        let c = s.get_char(i);
        r.push(c);
        i += 1;
        assert(r@ =~= s@.subrange(0, i as int));
    }
    assert(r@ =~= s@);
    r
}

/// Index of the first character at or after `from` that is not white space.
pub fn skip_white_space(s: &Vec<char>, from: usize) -> (r: usize)
    requires
        from <= s@.len(),
    ensures
        r as int == skip_ws(s@, from as int),
{
    let mut i = from;
    while i < s.len() && is_white_space_char(s[i])
        invariant
            from <= i <= s@.len(),
            skip_ws(s@, i as int) == skip_ws(s@, from as int),
        decreases s@.len() - i,
    {
        i += 1;
    }
    i
}

/// End of the first `to` characters once their trailing white space is dropped.
pub fn skip_white_space_back(s: &Vec<char>, to: usize) -> (r: usize)
    requires
        to <= s@.len(),
    ensures
        r as int == skip_ws_back(s@, to as int),
{
    let mut j = to;
    while j > 0 && is_white_space_char(s[j - 1])
        invariant
            j <= to <= s@.len(),
            skip_ws_back(s@, j as int) == skip_ws_back(s@, to as int),
        decreases j,
    {
        j -= 1;
    }
    j
}

/// `s` without its leading white space.
pub fn trim_start_str(s: &str) -> (r: &str)
    ensures
        r@ == trim_start(s@),
{
    let cs = chars_of(s);
    let a = skip_white_space(&cs, 0);
    proof {
        lemma_skip_ws(s@, 0);
    }
    s.substring_char(a, cs.len())
}

/// `s` without white space at either end.
pub fn trim_str(s: &str) -> (r: &str)
    ensures
        r@ == trim(s@),
{
    let t = trim_start_str(s);
    let ct = chars_of(t);
    let b = skip_white_space_back(&ct, ct.len());
    proof {
        lemma_skip_ws_back(t@, t@.len() as int);
    }
    t.substring_char(0, b)
}

/// Relies on `str::to_lowercase`: the result is a function of the
/// characters alone.
#[verifier::external_body]
pub(crate) fn lowercase(s: &str) -> (r: String)
    ensures
        r@ == lower_of(s@),
{
    s.to_lowercase()
}

pub open spec fn is_path_separator(c: char) -> bool {
    c == '/' || c == '\\'
}

/// A file name that is one plain path component: not empty, not `.` or
/// `..`, and without a separator or a drive colon.
pub open spec fn is_plain_file_name(name: Seq<char>) -> bool {
    &&& name.len() > 0
    &&& !(name.len() == 1 && name[0] == '.')
    &&& !(name.len() == 2 && name[0] == '.' && name[1] == '.')
    &&& forall|i: int| 0 <= i < name.len() ==> !is_path_separator(#[trigger] name[i]) && name[i] != ':'
}

/// A directory that starts with a verbatim prefix (`\\?\`), which Windows
/// paths normalise when something is pushed onto them.
pub open spec fn has_verbatim_prefix(dir: Seq<char>) -> bool {
    dir.len() >= 4 && dir[0] == '\\' && dir[1] == '\\' && dir[2] == '?' && dir[3] == '\\'
}

/// `path` is `name` inside `dir`: the directory, then one separator unless
/// the directory is empty or already ends in a separator or a drive colon,
/// then the name.
pub open spec fn joined_path(dir: Seq<char>, name: Seq<char>, path: Seq<char>) -> bool {
    ||| path == dir + name && (dir.len() == 0 || is_path_separator(dir.last()) || dir.last() == ':')
    ||| dir.len() > 0 && (path == dir.push('/') + name || path == dir.push('\\') + name)
}

/// Relies on `std::path::Path::join`, that is `PathBuf::push`: a relative
/// path is appended, with a separator if needed. Windows normalises a path
/// with a verbatim prefix, so nothing is stated of one.
#[verifier::external_body]
fn join_path(dir: &str, file_name: &str) -> (r: String)
    requires
        is_plain_file_name(file_name@),
    ensures
        !has_verbatim_prefix(dir@) ==> joined_path(dir@, file_name@, r@),
{
    std::path::Path::new(dir).join(file_name).to_string_lossy().into_owned()
}

/// The configuration file `config.json` that sits beside the program, in
/// directory `dir`.
pub fn cfg_path(dir: &str) -> (r: String)
    ensures
        !has_verbatim_prefix(dir@) ==> joined_path(dir@, "config.json"@, r@),
{
    let name = "config.json";
    proof {
        reveal_strlit("config.json");
        assert(name@.len() == 11);
    }
    join_path(dir, name)
}

} // verus!
