use vstd::prelude::*;

use crate::strutil::{lower_seq, to_lower_char};

verus! {

/// The index of the last occurrence of `c` in `s`, or -1 if `c` does not
/// occur.
pub open spec fn last_index_of(s: Seq<char>, c: char) -> int
    decreases s.len(),
{
    if s.len() == 0 {
        -1
    } else if s[s.len() - 1] == c {
        s.len() - 1
    } else {
        last_index_of(s.drop_last(), c)
    }
}

pub proof fn lemma_last_index_of_found(s: Seq<char>, c: char, k: int)
    requires
        0 <= k < s.len(),
        s[k] == c,
        forall|j: int| k < j < s.len() ==> s[j] != c,
    ensures
        last_index_of(s, c) == k,
    decreases s.len(),
{
    if k < s.len() - 1 {
        assert(s.drop_last()[k] == c);
        lemma_last_index_of_found(s.drop_last(), c, k);
    }
}

pub proof fn lemma_last_index_of_none(s: Seq<char>, c: char)
    requires
        forall|j: int| 0 <= j < s.len() ==> s[j] != c,
    ensures
        last_index_of(s, c) == -1,
    decreases s.len(),
{
    if s.len() > 0 {
        lemma_last_index_of_none(s.drop_last(), c);
    }
}

/// The file-name part of a path: everything after the last `/`, or the
/// whole path when it holds no `/`.
pub open spec fn file_name_of(p: Seq<char>) -> Seq<char> {
    p.skip(last_index_of(p, '/') + 1)
}

/// The extension of the file name of `p`: the part after the last `.` of
/// the name. A name without a `.`, or whose only `.` begins it (a hidden
/// file), has no extension.
pub open spec fn extension_of(p: Seq<char>) -> Option<Seq<char>> {
    let name = file_name_of(p);
    let d = last_index_of(name, '.');
    if d <= 0 {
        None
    } else {
        Some(name.skip(d + 1))
    }
}

/// The extensions admitted into an image sequence, compared without case.
pub open spec fn is_allowed_extension(e: Seq<char>) -> bool {
    ||| lower_seq(e) == "jpg"@
    ||| lower_seq(e) == "jpeg"@
    ||| lower_seq(e) == "png"@
    ||| lower_seq(e) == "gif"@
    ||| lower_seq(e) == "webp"@
}

/// Whether a path names an image file: it has an extension and the
/// extension is on the allow-list.
pub open spec fn is_image_path(p: Seq<char>) -> bool {
    match extension_of(p) {
        Some(e) => is_allowed_extension(e),
        None => false,
    }
}

/// The destination path of a file moved into a directory: the directory,
/// a separating `/` unless one is already there, and the file name.
pub open spec fn joined_path(dir: Seq<char>, name: Seq<char>) -> Seq<char> {
    if dir.len() == 0 {
        name
    } else if dir[dir.len() - 1] == '/' {
        dir + name
    } else {
        dir + seq!['/'] + name
    }
}

/// The display URI of an image path.
pub open spec fn uri_of(p: Seq<char>) -> Seq<char> {
    "file://"@ + p
}

/// The index of the last occurrence of `c`, searched from the end.
fn rfind(s: &str, c: char) -> (r: Option<usize>)
    ensures
        match r {
            Some(k) => k < s@.len() && last_index_of(s@, c) == k as int,
            None => last_index_of(s@, c) == -1,
        },
{
    let n = s.unicode_len();
    let mut i: usize = n;
    loop
        invariant
            i <= n,
            n == s@.len(),
            forall|j: int| i <= j < n ==> s@[j] != c,
        decreases i,
    {
        if i == 0 {
            proof {
                lemma_last_index_of_none(s@, c);
            }
            return None;
        }
        let ch = s.get_char(i - 1);
        if ch == c {
            proof {
                lemma_last_index_of_found(s@, c, i - 1);
            }
            return Some(i - 1);
        }
        i -= 1;
    }
}

/// The file-name part of a path: everything after the last `/`.
pub fn get_file_name(path: &str) -> (r: String)
    ensures
        r@ == file_name_of(path@),
{
    let n = path.unicode_len();
    let cut: usize = match rfind(path, '/') {
        Some(k) => k + 1,
        None => 0,
    };
    let sub = path.substring_char(cut, n);
    proof {
        assert(sub@ =~= file_name_of(path@));
    }
    String::from_str(sub)
}

/// Whether the string, lowered character by character, equals `b`.
fn lower_eq(a: &str, b: &str) -> (r: bool)
    ensures
        r == (lower_seq(a@) == b@),
{
    let alen = a.unicode_len();
    let blen = b.unicode_len();
    if alen != blen {
        return false;
    }
    let mut i: usize = 0;
    while i < alen
        invariant
            i <= alen,
            alen == a@.len(),
            alen == blen,
            blen == b@.len(),
            forall|j: int| 0 <= j < i ==> lower_seq(a@)[j] == b@[j],
        decreases alen - i,
    {
        if to_lower_char(a.get_char(i)) != b.get_char(i) {
            return false;
        }
        i += 1;
    }
    proof {
        assert(lower_seq(a@) =~= b@);
    }
    true
}

/// Whether a path names an image file, decided on its extension without
/// regard to case.
pub fn has_image_extension(path: &str) -> (r: bool)
    ensures
        r == is_image_path(path@),
{
    let n = path.unicode_len();
    let cut: usize = match rfind(path, '/') {
        Some(k) => k + 1,
        None => 0,
    };
    let name = path.substring_char(cut, n);
    proof {
        assert(name@ =~= file_name_of(path@));
    }
    let nlen = name.unicode_len();
    match rfind(name, '.') {
        None => false,
        Some(d) => {
            if d == 0 {
                false
            } else {
                let ext = name.substring_char(d + 1, nlen);
                proof {
                    assert(ext@ =~= extension_of(path@)->Some_0);
                }
                lower_eq(ext, "jpg") || lower_eq(ext, "jpeg") || lower_eq(ext, "png") || lower_eq(
                    ext,
                    "gif",
                ) || lower_eq(ext, "webp")
            }
        },
    }
}

/// The destination path of a file named `name` moved into `dest_dir`.
pub fn join_dest_path(dest_dir: &str, name: &str) -> (r: String)
    ensures
        r@ == joined_path(dest_dir@, name@),
{
    let n = dest_dir.unicode_len();
    if n == 0 {
        String::from_str(name)
    } else if dest_dir.get_char(n - 1) == '/' {
        String::from_str(dest_dir).concat(name)
    } else {
        proof {
            reveal_strlit("/");
            assert("/"@ =~= seq!['/']);
        }
        String::from_str(dest_dir).concat("/").concat(name)
    }
}

/// A normalized path string naming one image file. Identity is by path
/// equality: two values with the same string denote the same cache entry.
#[derive(Debug)]
pub struct ImagePath {
    path: String,
}

impl View for ImagePath {
    type V = Seq<char>;

    closed spec fn view(&self) -> Seq<char> {
        self.path@
    }
}

impl ImagePath {
    pub fn new(path: &str) -> (r: Self)
        ensures
            r@ == path@,
    {
        Self { path: String::from_str(path) }
    }

    pub fn path(&self) -> (r: &str)
        ensures
            r@ == self@,
    {
        self.path.as_str()
    }

    pub fn uri(&self) -> (r: String)
        ensures
            r@ == uri_of(self@),
    {
        String::from_str("file://").concat(self.path.as_str())
    }
}

} // verus!
