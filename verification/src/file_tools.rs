//! Path helpers: joining paths, reading a file name's extension, and
//! selecting the object files out of a directory listing.
//!
//! Paths are plain `/`-separated strings. A file name's extension is what
//! follows the last dot of its final component, provided that dot is not
//! the component's first character.

use vstd::prelude::*;
use vstd::string::StrSliceExecFns;
use vstd::string::StringExecFns;

verus! {

/// The index of the last occurrence of `c` in `s`, or -1 when absent.
pub open spec fn last_pos(s: Seq<char>, c: char) -> int
    decreases s.len(),
{
    if s.len() == 0 {
        -1
    } else if s.last() == c {
        s.len() - 1
    } else {
        last_pos(s.drop_last(), c)
    }
}

/// `base` and `rel` joined with a single separator.
pub open spec fn joined_path(base: Seq<char>, rel: Seq<char>) -> Seq<char> {
    base + "/"@ + rel
}

/// Start of the final path component: just after the last separator.
pub open spec fn file_name_start(p: Seq<char>) -> int {
    last_pos(p, '/') + 1
}

/// The final path component of `p`.
pub open spec fn file_name_of(p: Seq<char>) -> Seq<char> {
    p.skip(file_name_start(p))
}

/// Whether the final component carries an extension: a dot that is not
/// its first character.
pub open spec fn has_extension(p: Seq<char>) -> bool {
    last_pos(file_name_of(p), '.') > 0
}

/// The extension of `p`: what follows the last dot of its final component.
pub open spec fn extension_of(p: Seq<char>) -> Seq<char> {
    file_name_of(p).skip(last_pos(file_name_of(p), '.') + 1)
}

/// Whether `p` names an object file, by its extension, case-insensitively.
pub open spec fn is_object_file(p: Seq<char>) -> bool {
    has_extension(p) && (extension_of(p) == "o"@ || extension_of(p) == "O"@)
}

/// `p` with its extension replaced by `o` (or with `.o` appended when it
/// has no extension), keeping any leading directories.
pub open spec fn with_object_ext(p: Seq<char>) -> Seq<char> {
    if has_extension(p) {
        p.take(file_name_start(p) + last_pos(file_name_of(p), '.')) + ".o"@
    } else {
        p + ".o"@
    }
}

/// The object files of a listing, each joined under `base`, in order.
pub open spec fn object_files_of(files: Seq<Seq<char>>, base: Seq<char>) -> Seq<Seq<char>>
    decreases files.len(),
{
    if files.len() == 0 {
        Seq::<Seq<char>>::empty()
    } else {
        let rest = object_files_of(files.drop_last(), base);
        if is_object_file(files.last()) {
            rest.push(joined_path(base, files.last()))
        } else {
            rest
        }
    }
}

/// `last_pos` finds the last occurrence: `k` is it when `k` holds `c` and
/// nothing after `k` does (with `k == -1` for no occurrence at all).
pub proof fn lemma_last_pos_at(s: Seq<char>, c: char, k: int)
    requires
        -1 <= k < s.len(),
        k >= 0 ==> s[k] == c,
        forall|i: int| k < i < s.len() ==> s[i] != c,
    ensures
        last_pos(s, c) == k,
    decreases s.len(),
{
    if s.len() == 0 {
    } else if k == s.len() - 1 {
    } else {
        assert(s.last() != c);
        let t = s.drop_last();
        assert(forall|i: int| k < i < t.len() ==> t[i] == s[i] && t[i] != c);
        lemma_last_pos_at(t, c, k);
    }
}

/// What the value of `last_pos` means: it is in range, it holds `c` when
/// it is an index at all, and nothing after it holds `c`.
pub proof fn lemma_last_pos_props(s: Seq<char>, c: char)
    ensures
        -1 <= last_pos(s, c) < s.len(),
        last_pos(s, c) >= 0 ==> s[last_pos(s, c)] == c,
        forall|i: int| last_pos(s, c) < i < s.len() ==> s[i] != c,
    decreases s.len(),
{
    if s.len() == 0 {
    } else if s.last() == c {
    } else {
        let t = s.drop_last();
        lemma_last_pos_props(t, c);
        assert forall|i: int| last_pos(s, c) < i < s.len() implies s[i] != c by {
            if i < s.len() - 1 {
                assert(s[i] == t[i]);
            }
        }
    }
}

/// Index of the last occurrence of `c` in `s`, if any.
pub fn last_pos_of(s: &str, c: char) -> (r: Option<usize>)
    ensures
        match r {
            Some(k) => k < s@.len() && last_pos(s@, c) == k as int,
            None => last_pos(s@, c) == -1,
        },
{
    let n: usize = s.unicode_len();
    let mut i: usize = n;
    while i > 0
        invariant
            i <= n,
            n == s@.len(),
            forall|k: int| i <= k < n ==> s@[k] != c,
        decreases i,
    {
        i = i - 1;
        if s.get_char(i) == c {
            proof {
                lemma_last_pos_at(s@, c, i as int);
            }
            return Some(i);
        }
    }
    proof {
        lemma_last_pos_at(s@, c, -1);
    }
    None
}

/// Joins `base` and `rel` with a single separator.
pub fn join_path(base: &str, rel: &str) -> (r: String)
    ensures
        r@ == joined_path(base@, rel@),
{
    String::from_str(base).concat("/").concat(rel)
}

/// Positions of the last separator and the last dot of `p`, as the bounds
/// `file_name_start` and the extension dot used by the spec side.
pub(crate) fn extension_bounds(p: &str) -> (r: (usize, Option<usize>))
    ensures
        r.0 == file_name_start(p@),
        match r.1 {
            Some(d) => has_extension(p@) && file_name_start(p@) + last_pos(file_name_of(p@), '.')
                == d && d < p@.len() && p@[d as int] == '.',
            None => !has_extension(p@),
        },
{
    let n: usize = p.unicode_len();
    let ls = last_pos_of(p, '/');
    let ld = last_pos_of(p, '.');
    let start: usize = match ls {
        Some(k) => k + 1,
        None => 0,
    };
    let ghost f = file_name_of(p@);
    proof {
        lemma_last_pos_props(p@, '.');
        assert(f =~= p@.skip(start as int));
        assert(forall|i: int| 0 <= i < f.len() ==> f[i] == p@[i + start]);
        let d = last_pos(p@, '.');
        if d >= start {
            assert(f[d - start] == '.');
            assert forall|i: int| d - start < i < f.len() implies f[i] != '.' by {
                assert(f[i] == p@[i + start]);
            }
            lemma_last_pos_at(f, '.', d - start);
        } else {
            assert forall|i: int| 0 <= i < f.len() implies f[i] != '.' by {
                assert(f[i] == p@[i + start]);
            }
            lemma_last_pos_at(f, '.', -1);
        }
    }
    match ld {
        Some(d) => {
            if d > start {
                (start, Some(d))
            } else {
                (start, None)
            }
        },
        None => (start, None),
    }
}

/// Whether the path names an object file.
fn object_file(p: &str) -> (r: bool)
    ensures
        r == is_object_file(p@),
{
    let n: usize = p.unicode_len();
    let (_start, ld) = extension_bounds(p);
    match ld {
        Some(d) => {
            proof {
                assert(extension_of(p@) =~= p@.skip(d + 1));
                reveal_strlit("o");
                reveal_strlit("O");
            }
            if n >= 2 && d == n - 2 {
                let c = p.get_char(n - 1);
                proof {
                    assert(p@.skip(d + 1).len() == 1);
                    assert(p@.skip(d + 1)[0] == p@[n - 1]);
                    assert(c == 'o' ==> extension_of(p@) =~= "o"@);
                    assert(c == 'O' ==> extension_of(p@) =~= "O"@);
                    if c != 'o' && c != 'O' {
                        assert(extension_of(p@) != "o"@) by {
                            assert("o"@[0] == 'o');
                        }
                        assert(extension_of(p@) != "O"@) by {
                            assert("O"@[0] == 'O');
                        }
                    }
                }
                c == 'o' || c == 'O'
            } else {
                proof {
                    assert(extension_of(p@).len() != 1);
                    assert("o"@.len() == 1 && "O"@.len() == 1);
                }
                false
            }
        },
        None => false,
    }
}

/// `p` with its extension replaced by `o`, keeping leading directories.
pub fn with_object_extension(p: &str) -> (r: String)
    ensures
        r@ == with_object_ext(p@),
{
    let (_start, ld) = extension_bounds(p);
    match ld {
        Some(d) => {
            let stem = p.substring_char(0, d);
            proof {
                assert(stem@ =~= p@.take(d as int));
            }
            String::from_str(stem).concat(".o")
        },
        None => String::from_str(p).concat(".o"),
    }
}

/// Returns the object files among `files`, each joined under `path`.
/// This selects from the given listing only; it does not search the
/// filesystem.
pub fn find_object_files(files: &Vec<String>, path: &String) -> (r: Vec<String>)
    ensures
        r.deep_view() == object_files_of(files.deep_view(), path@),
{
    let mut r: Vec<String> = Vec::new();
    let mut i: usize = 0;
    let n = files.len();
    while i < n
        invariant
            i <= n,
            n == files@.len(),
            r.deep_view() == object_files_of(files.deep_view().take(i as int), path@),
        decreases n - i,
    {
        proof {
            assert(files.deep_view().take(i + 1).drop_last() =~= files.deep_view().take(i as int));
            assert(files.deep_view().take(i + 1).last() == files@[i as int]@);
        }
        if object_file(files[i].as_str()) {
            let joined = join_path(path.as_str(), files[i].as_str());
            r.push(joined);
            proof {
                assert(r.deep_view() =~= object_files_of(files.deep_view().take(i + 1), path@));
            }
        } else {
            proof {
                assert(r.deep_view() =~= object_files_of(files.deep_view().take(i + 1), path@));
            }
        }
        i = i + 1;
    }
    proof {
        assert(files.deep_view().take(n as int) =~= files.deep_view());
    }
    r
}

} // verus!
