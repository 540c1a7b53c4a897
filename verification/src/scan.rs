//! The content snapshot and the scanner primitives over it.
//!
//! The library never touches the filesystem: an unverified shell reads the
//! content root into a [`DirTree`] — directory names, file names and file
//! texts — and everything after that point is verified. The helpers here are
//! the deterministic enumeration primitives the traversal relies on: does a
//! directory hold a file of a given name, which of its files carry a given
//! extension, and the stem / last-component arithmetic on names.

use vstd::prelude::*;

verus! {

/// One content file: its bare name and its full text.
pub struct FileEntry {
    pub name: String,
    pub text: String,
}

/// One directory of the content snapshot.
pub struct DirTree {
    pub name: String,
    pub files: Vec<FileEntry>,
    pub dirs: Vec<DirTree>,
}

/// The immediate subdirectories of a directory of the snapshot.
pub fn subdirs(dir: &DirTree) -> (r: &Vec<DirTree>)
    ensures
        r == &dir.dirs,
{
    &dir.dirs
}

/// The position of the last occurrence of `c` in `s`, if any.
pub open spec fn rfind(s: Seq<char>, c: char) -> Option<int>
    decreases s.len(),
{
    if s.len() == 0 {
        None
    } else if s.last() == c {
        Some(s.len() - 1)
    } else {
        rfind(s.drop_last(), c)
    }
}

/// What [`rfind`] returns: the last occurrence, or nothing when the character
/// does not occur.
pub proof fn lemma_rfind(s: Seq<char>, c: char)
    ensures
        match rfind(s, c) {
            Some(i) => 0 <= i < s.len() && s[i] == c && (forall|j: int|
                i < j < s.len() ==> s[j] != c),
            None => forall|j: int| 0 <= j < s.len() ==> s[j] != c,
        },
    decreases s.len(),
{
    if s.len() > 0 && s.last() != c {
        lemma_rfind(s.drop_last(), c);
        let d = s.drop_last();
        match rfind(s, c) {
            Some(i) => {
                assert(d[i] == s[i]);
                assert forall|j: int| i < j < s.len() implies s[j] != c by {
                    if j < s.len() - 1 {
                        assert(d[j] == s[j]);
                    }
                }
            },
            None => {
                assert forall|j: int| 0 <= j < s.len() implies s[j] != c by {
                    if j < s.len() - 1 {
                        assert(d[j] == s[j]);
                    }
                }
            },
        }
    }
}

/// A position that holds `c` with no later occurrence is what [`rfind`]
/// returns.
pub proof fn lemma_rfind_at(s: Seq<char>, c: char, p: int)
    requires
        0 <= p < s.len(),
        s[p] == c,
        forall|j: int| p < j < s.len() ==> s[j] != c,
    ensures
        rfind(s, c) == Some(p),
    decreases s.len(),
{
    if s.last() == c {
        assert(p == s.len() - 1);
    } else {
        assert(p < s.len() - 1);
        lemma_rfind_at(s.drop_last(), c, p);
    }
}

/// The portion of a file name before its final `.`, or the whole name when
/// there is no dot or the only dot begins the name.
pub open spec fn stem_of(name: Seq<char>) -> Seq<char> {
    match rfind(name, '.') {
        Some(i) => if i > 0 {
            name.take(i)
        } else {
            name
        },
        None => name,
    }
}

/// The portion of a file name after its final `.`, or nothing when there is
/// no dot or the only dot begins the name.
pub open spec fn ext_of(name: Seq<char>) -> Option<Seq<char>> {
    match rfind(name, '.') {
        Some(i) => if i > 0 {
            Some(name.skip(i + 1))
        } else {
            None
        },
        None => None,
    }
}

/// The portion of a path after its final `/`, or the whole path.
pub open spec fn last_component(p: Seq<char>) -> Seq<char> {
    match rfind(p, '/') {
        Some(i) => p.skip(i + 1),
        None => p,
    }
}

/// Whether two string slices hold the same characters.
pub fn str_eq(a: &str, b: &str) -> (r: bool)
    ensures
        r == (a@ == b@),
{
    let sa = a.to_owned();
    let sb = b.to_owned();
    sa == sb
}

/// Finds the last occurrence of `c` in `s`, as [`rfind`] describes it.
fn rfind_exec(s: &str, c: char) -> (r: Option<usize>)
    ensures
        match r {
            Some(i) => rfind(s@, c) == Some(i as int),
            None => rfind(s@, c) is None,
        },
{
    let n = s.unicode_len();
    let mut i: usize = n;
    while i > 0
        invariant
            0 <= i <= n,
            n == s@.len(),
            forall|j: int| i <= j < n ==> s@[j] != c,
        decreases i,
    {
        let ch = s.get_char(i - 1);
        if ch == c {
            proof {
                lemma_rfind_at(s@, c, i - 1);
            }
            return Some(i - 1);
        }
        i = i - 1;
    }
    proof {
        lemma_rfind(s@, c);
        match rfind(s@, c) {
            Some(p) => {
                assert(s@[p] != c);
            },
            None => {},
        }
    }
    None
}

/// Returns the stem of a file name: the name without its final extension.
pub fn file_stem(name: &str) -> (r: String)
    ensures
        r@ == stem_of(name@),
{
    match rfind_exec(name, '.') {
        Some(i) => {
            if i > 0 {
                proof {
                    lemma_rfind(name@, '.');
                }
                let r = name.substring_char(0, i);
                r.to_owned()
            } else {
                name.to_owned()
            }
        },
        None => name.to_owned(),
    }
}

/// Returns the last `/`-separated component of a path, or the path itself
/// when it holds no separator.
pub fn file_name(path: &str) -> (r: String)
    ensures
        r@ == last_component(path@),
{
    let n = path.unicode_len();
    match rfind_exec(path, '/') {
        Some(i) => {
            proof {
                lemma_rfind(path@, '/');
            }
            let r = path.substring_char(i + 1, n);
            proof {
                assert(r@ =~= path@.skip(i + 1));
            }
            r.to_owned()
        },
        None => path.to_owned(),
    }
}

/// Whether a file name carries exactly the given extension.
pub fn has_extension(name: &str, ext: &str) -> (r: bool)
    ensures
        r == (ext_of(name@) == Some(ext@)),
{
    let n = name.unicode_len();
    match rfind_exec(name, '.') {
        Some(i) => {
            if i > 0 {
                proof {
                    lemma_rfind(name@, '.');
                }
                let e = name.substring_char(i + 1, n);
                proof {
                    assert(e@ =~= name@.skip(i + 1));
                }
                str_eq(e, ext)
            } else {
                false
            }
        },
        None => false,
    }
}

/// The position of the first file of the list bearing `name`, if any.
pub open spec fn file_index(fs: Seq<FileEntry>, name: Seq<char>) -> Option<int>
    decreases fs.len(),
{
    if fs.len() == 0 {
        None
    } else if fs[0].name@ == name {
        Some(0)
    } else {
        match file_index(fs.drop_first(), name) {
            Some(i) => Some(i + 1),
            None => None,
        }
    }
}

/// A directory directly contains a file of the given name.
pub open spec fn dir_has_file(d: DirTree, name: Seq<char>) -> bool {
    file_index(d.files@, name) is Some
}

/// A directory is a section exactly when it directly contains `index.md`.
pub open spec fn is_section_dir(d: DirTree) -> bool {
    dir_has_file(d, "index.md"@)
}

/// The text of a directory's first `index.md`, if one is present.
pub open spec fn index_text_of(d: DirTree) -> Option<Seq<char>> {
    match file_index(d.files@, "index.md"@) {
        Some(i) => Some(d.files@[i].text@),
        None => None,
    }
}

/// What [`file_index`] returns: the first matching position, or nothing.
pub proof fn lemma_file_index(fs: Seq<FileEntry>, name: Seq<char>)
    ensures
        match file_index(fs, name) {
            Some(i) => 0 <= i < fs.len() && fs[i].name@ == name && (forall|j: int|
                0 <= j < i ==> fs[j].name@ != name),
            None => forall|j: int| 0 <= j < fs.len() ==> fs[j].name@ != name,
        },
    decreases fs.len(),
{
    if fs.len() > 0 && fs[0].name@ != name {
        lemma_file_index(fs.drop_first(), name);
        let d = fs.drop_first();
        match file_index(d, name) {
            Some(i) => {
                assert(d[i] == fs[i + 1]);
                assert forall|j: int| 0 <= j < i + 1 implies fs[j].name@ != name by {
                    if j > 0 {
                        assert(d[j - 1] == fs[j]);
                    }
                }
            },
            None => {
                assert forall|j: int| 0 <= j < fs.len() implies fs[j].name@ != name by {
                    if j > 0 {
                        assert(d[j - 1] == fs[j]);
                    }
                }
            },
        }
    }
}

/// A first matching position determines [`file_index`].
pub proof fn lemma_file_index_at(fs: Seq<FileEntry>, name: Seq<char>, p: int)
    requires
        0 <= p < fs.len(),
        fs[p].name@ == name,
        forall|j: int| 0 <= j < p ==> fs[j].name@ != name,
    ensures
        file_index(fs, name) == Some(p),
    decreases fs.len(),
{
    if fs[0].name@ == name {
        assert(p == 0);
    } else {
        assert(p > 0);
        assert(forall|j: int| 0 <= j < fs.drop_first().len() ==> fs.drop_first()[j] == fs[j + 1]);
        lemma_file_index_at(fs.drop_first(), name, p - 1);
    }
}

/// Decides whether the directory directly contains a file named `filename`.
pub fn has_file(dir: &DirTree, filename: &str) -> (r: bool)
    ensures
        r == dir_has_file(*dir, filename@),
{
    let n = dir.files.len();
    let mut i: usize = 0;
    while i < n
        invariant
            0 <= i <= n,
            n == dir.files@.len(),
            forall|j: int| 0 <= j < i ==> dir.files@[j].name@ != filename@,
        decreases n - i,
    {
        if str_eq(dir.files[i].name.as_str(), filename) {
            proof {
                lemma_file_index_at(dir.files@, filename@, i as int);
            }
            return true;
        }
        i = i + 1;
    }
    proof {
        lemma_file_index(dir.files@, filename@);
    }
    false
}

/// Returns the text of the directory's `index.md`, exactly when it has one.
pub fn index_text(dir: &DirTree) -> (r: Option<String>)
    ensures
        r is Some <==> index_text_of(*dir) is Some,
        r matches Some(t) ==> Some(t@) == index_text_of(*dir),
{
    let n = dir.files.len();
    let mut i: usize = 0;
    while i < n
        invariant
            0 <= i <= n,
            n == dir.files@.len(),
            forall|j: int| 0 <= j < i ==> dir.files@[j].name@ != "index.md"@,
        decreases n - i,
    {
        if str_eq(dir.files[i].name.as_str(), "index.md") {
            proof {
                lemma_file_index_at(dir.files@, "index.md"@, i as int);
            }
            return Some(dir.files[i].text.clone());
        }
        i = i + 1;
    }
    proof {
        lemma_file_index(dir.files@, "index.md"@);
    }
    None
}

/// The names of the files carrying extension `e`, in order.
pub open spec fn names_with_ext(fs: Seq<FileEntry>, e: Seq<char>) -> Seq<Seq<char>>
    decreases fs.len(),
{
    if fs.len() == 0 {
        Seq::empty()
    } else {
        let rest = names_with_ext(fs.drop_first(), e);
        if ext_of(fs[0].name@) == Some(e) {
            seq![fs[0].name@] + rest
        } else {
            rest
        }
    }
}

/// Returns the names of the directory's files that carry the extension, in
/// the order the snapshot lists them.
pub fn files_with_extension(dir: &DirTree, ext: &str) -> (r: Vec<String>)
    ensures
        r.deep_view() == names_with_ext(dir.files@, ext@),
{
    let n = dir.files.len();
    let mut r: Vec<String> = Vec::new();
    proof {
        assert(dir.files@.skip(0) =~= dir.files@);
        assert(r.deep_view() =~= Seq::<Seq<char>>::empty());
        assert(r.deep_view() + names_with_ext(dir.files@, ext@) =~= names_with_ext(
            dir.files@,
            ext@,
        ));
    }
    let mut i: usize = 0;
    while i < n
        invariant
            0 <= i <= n,
            n == dir.files@.len(),
            r.deep_view() + names_with_ext(dir.files@.skip(i as int), ext@) == names_with_ext(
                dir.files@,
                ext@,
            ),
        decreases n - i,
    {
        let ghost pre = r.deep_view();
        proof {
            assert(dir.files@.skip(i as int).drop_first() =~= dir.files@.skip(i + 1));
            assert(dir.files@.skip(i as int)[0] == dir.files@[i as int]);
        }
        if has_extension(dir.files[i].name.as_str(), ext) {
            r.push(dir.files[i].name.clone());
            proof {
                assert(r.deep_view() =~= pre.push(dir.files@[i as int].name@));
                assert(r.deep_view() + names_with_ext(dir.files@.skip(i + 1), ext@) =~= pre + (seq![
                    dir.files@[i as int].name@,
                ] + names_with_ext(dir.files@.skip(i + 1), ext@)));
            }
        }
        i = i + 1;
    }
    proof {
        assert(dir.files@.skip(n as int) =~= Seq::<FileEntry>::empty());
        assert(r.deep_view() =~= r.deep_view() + names_with_ext(dir.files@.skip(n as int), ext@));
    }
    r
}

/// Joins a directory path and an entry name with `/`.
pub fn path_join(base: &str, name: &str) -> (r: String)
    ensures
        r@ == base@ + seq!['/'] + name@,
{
    let mut r = base.to_owned();
    r.append("/");
    r.append(name);
    proof {
        reveal_strlit("/");
        assert("/"@ =~= seq!['/']);
        assert(r@ =~= base@ + seq!['/'] + name@);
    }
    r
}

} // verus!
