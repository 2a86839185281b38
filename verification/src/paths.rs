//! File system paths as text, joined and given extensions the way `std::path::PathBuf`
//! does it on Unix, and the folders that the data and the site live in.

use vstd::prelude::*;

use crate::text::push_char;

verus! {

/// `part` joined onto `base`: an absolute `part` (one that starts with `/`) replaces
/// `base`; otherwise a separator goes between the two, unless `base` is empty or
/// already ends with one.
pub open spec fn joined(base: Seq<char>, part: Seq<char>) -> Seq<char> {
    if part.len() > 0 && part[0] == '/' {
        part
    } else if base.len() == 0 || base[base.len() - 1] == '/' {
        base + part
    } else {
        base + seq!['/'] + part
    }
}

/// Every part joined onto `base` in turn.
pub open spec fn joined_all(base: Seq<char>, parts: Seq<Seq<char>>) -> Seq<char>
    decreases parts.len(),
{
    if parts.len() == 0 {
        base
    } else {
        joined(joined_all(base, parts.drop_last()), parts.last())
    }
}

/// The position where the segment of `p` that ends at `end` starts: just after the
/// last separator before `end`, or 0.
pub open spec fn segment_start(p: Seq<char>, end: int) -> int
    decreases end,
{
    if end <= 0 || end > p.len() {
        0
    } else if p[end - 1] == '/' {
        end
    } else {
        segment_start(p, end - 1)
    }
}

/// A segment starts no later than it ends.
pub proof fn lemma_segment_start_bounds(p: Seq<char>, end: int)
    ensures
        0 <= segment_start(p, end),
        0 <= end <= p.len() ==> segment_start(p, end) <= end,
    decreases end,
{
    if end > 0 && end <= p.len() && p[end - 1] != '/' {
        lemma_segment_start_bounds(p, end - 1);
    }
}

/// Scanning back from `end`: where the last component of `p` that is a name lies.
/// Empty segments and `.` segments are skipped; a last component `..` has no name.
pub open spec fn name_bounds_before(p: Seq<char>, end: int) -> Option<(int, int)>
    decreases end,
{
    if end < 0 || end > p.len() {
        None
    } else {
        let s = segment_start(p, end);
        proof {
            lemma_segment_start_bounds(p, end);
        }
        let seg = p.subrange(s, end);
        if seg.len() == 0 || seg == seq!['.'] {
            if s <= 0 {
                None
            } else {
                name_bounds_before(p, s - 1)
            }
        } else if seg == seq!['.', '.'] {
            None
        } else {
            Some((s, end))
        }
    }
}

/// Where the file name of `p` lies, if `p` has one.
pub open spec fn file_name_bounds(p: Seq<char>) -> Option<(int, int)> {
    name_bounds_before(p, p.len() as int)
}

/// The position of the last `.` in `name` before `end`, or -1.
pub open spec fn last_dot_before(name: Seq<char>, end: int) -> int
    decreases end,
{
    if end <= 0 || end > name.len() {
        -1
    } else if name[end - 1] == '.' {
        end - 1
    } else {
        last_dot_before(name, end - 1)
    }
}

/// The length of the stem of a file name: all of it when it has no dot or only a
/// leading one, otherwise the part before its last dot.
pub open spec fn stem_len(name: Seq<char>) -> int {
    let d = last_dot_before(name, name.len() as int);
    if d <= 0 {
        name.len() as int
    } else {
        d
    }
}

/// `p` with the extension of its file name set to `ext` (removed for an empty
/// `ext`); everything after the stem of the file name goes. A path without a file
/// name stays as it is.
pub open spec fn with_extension(p: Seq<char>, ext: Seq<char>) -> Seq<char> {
    match file_name_bounds(p) {
        None => p,
        Some(b) => {
            let stem_end = b.0 + stem_len(p.subrange(b.0, b.1));
            p.subrange(0, stem_end) + if ext.len() == 0 {
                Seq::<char>::empty()
            } else {
                seq!['.'] + ext
            }
        },
    }
}

/// Appends the characters of `part` to `s`.
pub(crate) fn append_chars(s: &mut String, part: &str)
    ensures
        final(s)@ == old(s)@ + part@,
{
    s.append(part);
}

/// `part` joined onto `base` (see `joined`).
pub fn join_path(base: &str, part: &str) -> (p: String)
    ensures
        p@ == joined(base@, part@),
{
    let lb = base.unicode_len();
    let lp = part.unicode_len();
    let mut p = String::new();
    if lp > 0 && part.get_char(0) == '/' {
        append_chars(&mut p, part);
        proof {
            assert(p@ =~= joined(base@, part@));
        }
        return p;
    }
    append_chars(&mut p, base);
    if lb > 0 && base.get_char(lb - 1) != '/' {
        push_char(&mut p, '/');
    }
    append_chars(&mut p, part);
    proof {
        assert(p@ =~= joined(base@, part@));
    }
    p
}

fn find_segment_start(p: &str, end: usize) -> (s: usize)
    requires
        end <= p@.len(),
    ensures
        s as int == segment_start(p@, end as int),
        s <= end,
{
    let mut i = end;
    while i > 0 && p.get_char(i - 1) != '/'
        invariant
            i <= end <= p@.len(),
            segment_start(p@, end as int) == segment_start(p@, i as int),
        decreases i,
    {
        i = i - 1;
    }
    i
}

fn find_name_bounds(p: &str) -> (r: Option<(usize, usize)>)
    ensures
        match r {
            Some(b) => file_name_bounds(p@) == Some((b.0 as int, b.1 as int)) && b.0 <= b.1
                <= p@.len(),
            None => file_name_bounds(p@) is None,
        },
{
    let n = p.unicode_len();
    let mut end = n;
    loop
        invariant
            n == p@.len(),
            end <= n,
            file_name_bounds(p@) == name_bounds_before(p@, end as int),
        decreases end,
    {
        let s = find_segment_start(p, end);
        let len = end - s;
        let ghost seg = p@.subrange(s as int, end as int);
        let is_dot = len == 1 && p.get_char(s) == '.';
        let is_dot_dot = len == 2 && p.get_char(s) == '.' && p.get_char(s + 1) == '.';
        proof {
            if len >= 1 {
                assert(seg[0] == p@[s as int]);
            }
            if len >= 2 {
                assert(seg[1] == p@[s + 1]);
            }
            if len == 1 {
                assert(is_dot == (seg =~= seq!['.']));
            } else {
                assert(seg.len() != 1);
            }
            if len == 2 {
                assert(is_dot_dot == (seg =~= seq!['.', '.']));
            } else {
                assert(seg.len() != 2);
            }
        }
        if len == 0 || is_dot {
            if s == 0 {
                return None;
            }
            end = s - 1;
        } else if is_dot_dot {
            return None;
        } else {
            return Some((s, end));
        }
    }
}

fn find_stem_len(p: &str, s: usize, e: usize) -> (len: usize)
    requires
        s <= e <= p@.len(),
    ensures
        len as int == stem_len(p@.subrange(s as int, e as int)),
        len <= e - s,
{
    let ghost name = p@.subrange(s as int, e as int);
    let mut i = e - s;
    while i > 0 && p.get_char(s + i - 1) != '.'
        invariant
            s <= e <= p@.len(),
            i <= e - s,
            name == p@.subrange(s as int, e as int),
            last_dot_before(name, name.len() as int) == last_dot_before(name, i as int),
        decreases i,
    {
        i = i - 1;
    }
    if i <= 1 {
        e - s
    } else {
        i - 1
    }
}

/// `p` with the extension of its file name set to `ext` (see `with_extension`).
pub fn set_extension(p: &str, ext: &str) -> (r: String)
    ensures
        r@ == with_extension(p@, ext@),
{
    match find_name_bounds(p) {
        None => {
            let mut r = String::new();
            append_chars(&mut r, p);
            proof {
                assert(r@ =~= p@);
            }
            r
        },
        Some(b) => {
            let stem_end = b.0 + find_stem_len(p, b.0, b.1);
            let mut r = String::new();
            append_chars(&mut r, p.substring_char(0, stem_end));
            if ext.unicode_len() > 0 {
                push_char(&mut r, '.');
                append_chars(&mut r, ext);
            }
            proof {
                assert(r@ =~= with_extension(p@, ext@));
            }
            r
        },
    }
}


/// The views of a list of texts.
pub open spec fn texts_of(parts: Seq<&str>) -> Seq<Seq<char>> {
    parts.map_values(|part: &str| part@)
}

/// The view of an optional text.
pub open spec fn opt_text(t: Option<&str>) -> Option<Seq<char>> {
    match t {
        Some(s) => Some(s@),
        None => None,
    }
}

/// `path` with each of `parts` joined on in turn, then, where an extension is
/// given, with that extension set on the file name.
pub open spec fn built_path(path: Seq<char>, parts: Seq<Seq<char>>, extension: Option<Seq<char>>) -> Seq<char> {
    match extension {
        None => joined_all(path, parts),
        Some(ext) => with_extension(joined_all(path, parts), ext),
    }
}

/// Joins `parts` onto `path` in turn and sets the extension, if one is given.
/// An extension may not hold a separator.
pub fn build_path(path: String, parts: &[&str], extension: Option<&str>) -> (built: String)
    requires
        extension matches Some(ext) ==> !ext@.contains('/'),
    ensures
        built@ == built_path(path@, texts_of(parts@), opt_text(extension)),
{
    let mut built = path;
    let ghost start = built@;
    let n = parts.len();
    for i in 0..n
        invariant
            n == parts@.len(),
            built@ == joined_all(start, texts_of(parts@).take(i as int)),
    {
        built = join_path(built.as_str(), parts[i]);
        proof {
            let taken = texts_of(parts@).take(i + 1);
            assert(taken.drop_last() =~= texts_of(parts@).take(i as int));
            assert(taken.last() == parts@[i as int]@);
        }
    }
    assert(texts_of(parts@).take(n as int) =~= texts_of(parts@));
    match extension {
        None => built,
        Some(ext) => set_extension(built.as_str(), ext),
    }
}

fn text_string(text: &str) -> (s: String)
    ensures
        s@ == text@,
{
    let mut s = String::new();
    append_chars(&mut s, text);
    s
}

/// The folder that holds all the collected data: `data`.
pub fn get_data_folder() -> (folder: String)
    ensures
        folder@ == "data"@,
{
    text_string("data")
}

fn data_subfolder(name: &str) -> (folder: String)
    ensures
        folder@ == joined("data"@, name@),
{
    let data = get_data_folder();
    join_path(data.as_str(), name)
}

/// The folder of the cloned repositories: `data/repos`.
pub fn get_repos_folder() -> (folder: String)
    ensures
        folder@ == "data/repos"@,
{
    let folder = data_subfolder("repos");
    proof {
        reveal_strlit("data");
        reveal_strlit("repos");
        reveal_strlit("data/repos");
        assert(folder@ =~= "data/repos"@);
    }
    folder
}

/// The folder of the database dump of crates.io: `data/db-dump`.
pub fn get_db_dump_folder() -> (folder: String)
    ensures
        folder@ == "data/db-dump"@,
{
    let folder = data_subfolder("db-dump");
    proof {
        reveal_strlit("data");
        reveal_strlit("db-dump");
        reveal_strlit("data/db-dump");
        assert(folder@ =~= "data/db-dump"@);
    }
    folder
}

/// The folder for temporary files: `data/temp`.
pub fn get_temp_folder() -> (folder: String)
    ensures
        folder@ == "data/temp"@,
{
    let folder = data_subfolder("temp");
    proof {
        reveal_strlit("data");
        reveal_strlit("temp");
        reveal_strlit("data/temp");
        assert(folder@ =~= "data/temp"@);
    }
    folder
}

/// The folder of the downloaded crates: `data/crates`.
pub fn crates_root() -> (folder: String)
    ensures
        folder@ == "data/crates"@,
{
    let folder = data_subfolder("crates");
    proof {
        reveal_strlit("data");
        reveal_strlit("crates");
        reveal_strlit("data/crates");
        assert(folder@ =~= "data/crates"@);
    }
    folder
}

/// The folder of the details found in the downloaded crates: `data/analyzed-crates`.
pub fn analyzed_crates_root() -> (folder: String)
    ensures
        folder@ == "data/analyzed-crates"@,
{
    let folder = data_subfolder("analyzed-crates");
    proof {
        reveal_strlit("data");
        reveal_strlit("analyzed-crates");
        reveal_strlit("data/analyzed-crates");
        assert(folder@ =~= "data/analyzed-crates"@);
    }
    folder
}

/// The folder of the details found in the repositories: `data/repo-details`.
pub fn repo_details_root() -> (folder: String)
    ensures
        folder@ == "data/repo-details"@,
{
    let folder = data_subfolder("repo-details");
    proof {
        reveal_strlit("data");
        reveal_strlit("repo-details");
        reveal_strlit("data/repo-details");
        assert(folder@ =~= "data/repo-details"@);
    }
    folder
}

/// The folder of the data collected over all repositories: `data/collected-data`.
pub fn collected_data_root() -> (folder: String)
    ensures
        folder@ == "data/collected-data"@,
{
    let folder = data_subfolder("collected-data");
    proof {
        reveal_strlit("data");
        reveal_strlit("collected-data");
        reveal_strlit("data/collected-data");
        assert(folder@ =~= "data/collected-data"@);
    }
    folder
}

/// The folder that the generated site is written to: `_site`.
pub fn get_site_folder() -> (folder: String)
    ensures
        folder@ == "_site"@,
{
    text_string("_site")
}


/// The file that holds the details found in a downloaded crate: under
/// `data/analyzed-crates`, the name, a hyphen, the version and `.json`.
pub open spec fn crate_details_file(name: Seq<char>, version: Seq<char>) -> Seq<char> {
    joined("data/analyzed-crates"@, name + "-"@ + version + ".json"@)
}

/// The file that holds the details found in a downloaded crate (see
/// `crate_details_file`).
pub fn crate_details_path(name: &str, version: &str) -> (path: String)
    ensures
        path@ == crate_details_file(name@, version@),
{
    let mut file = String::from_str(name);
    append_chars(&mut file, "-");
    append_chars(&mut file, version);
    append_chars(&mut file, ".json");
    let root = analyzed_crates_root();
    join_path(root.as_str(), file.as_str())
}

} // verus!
