//! File-name handling and the key naming convention.
//!
//! A key must consist of one or more of the characters `a`-`z`, `0`-`9` and
//! `_`. A record file's stem (its name up to the final dot, when one follows a
//! non-initial position) is the canonical key; the stem and the record's own
//! key must agree exactly.

use vstd::prelude::*;

verus! {

use crate::directory::{DirectoryError, DirectoryErrorView};

/// Whether `c` is allowed in a key: lowercase ASCII letter, digit or `_`.
pub open spec fn is_key_char(c: char) -> bool {
    ('a' <= c && c <= 'z') || ('0' <= c && c <= '9') || c == '_'
}

/// Whether `s` is a well-formed key: non-empty and made of key characters
/// only.
pub open spec fn is_valid_key(s: Seq<char>) -> bool {
    s.len() > 0 && (forall|i: int| 0 <= i < s.len() ==> is_key_char(#[trigger] s[i]))
}

/// The index of the last `.` in `name`, or `-1` when there is none.
pub open spec fn last_dot_index(name: Seq<char>) -> int
    decreases name.len(),
{
    if name.len() == 0 {
        -1
    } else if name[name.len() - 1] == '.' {
        name.len() - 1
    } else {
        last_dot_index(name.drop_last())
    }
}

/// A file name has an extension when a `.` occurs past its first character.
pub open spec fn spec_has_extension(name: Seq<char>) -> bool {
    last_dot_index(name) >= 1
}

/// The extension of `name`: everything after the last `.`.
pub open spec fn spec_extension(name: Seq<char>) -> Seq<char> {
    name.subrange(last_dot_index(name) + 1, name.len() as int)
}

/// The stem of `name`: everything before the last `.` when `name` has an
/// extension, the whole name otherwise.
pub open spec fn spec_file_stem(name: Seq<char>) -> Seq<char> {
    if spec_has_extension(name) {
        name.subrange(0, last_dot_index(name))
    } else {
        name
    }
}

/// Whether `name` carries one of the two record extensions, exactly.
pub open spec fn spec_is_yaml(name: Seq<char>) -> bool {
    spec_has_extension(name) && (spec_extension(name) == "yaml"@ || spec_extension(name) == "yml"@)
}

/// What checking a resolved stem against a record key yields.
pub open spec fn spec_check_stem_and_key(stem: Seq<char>, key: Seq<char>) -> Result<
    (),
    DirectoryErrorView,
> {
    if !is_valid_key(stem) {
        Err(DirectoryErrorView::ShouldMatchNamingConventions(stem))
    } else if !is_valid_key(key) {
        Err(DirectoryErrorView::ShouldMatchNamingConventions(key))
    } else if stem != key {
        Err(DirectoryErrorView::FileNameAndKeyDoNotMatch(stem, key))
    } else {
        Ok(())
    }
}

/// What checking a file name against a record key yields: an empty name has
/// no stem and cannot be read; otherwise its stem is checked against the key.
pub open spec fn spec_check_filename_and_key(name: Seq<char>, key: Seq<char>) -> Result<
    (),
    DirectoryErrorView,
> {
    if name.len() == 0 {
        Err(DirectoryErrorView::CouldNotReadFile)
    } else {
        spec_check_stem_and_key(spec_file_stem(name), key)
    }
}

proof fn lemma_last_dot_at(s: Seq<char>, d: int)
    requires
        0 <= d < s.len(),
        s[d] == '.',
        forall|j: int| d < j < s.len() ==> s[j] != '.',
    ensures
        last_dot_index(s) == d,
    decreases s.len(),
{
    if d < s.len() - 1 {
        assert(s.drop_last() =~= s.subrange(0, s.len() - 1));
        assert(forall|j: int| d < j < s.drop_last().len() ==> s.drop_last()[j] != '.');
        lemma_last_dot_at(s.drop_last(), d);
    }
}

proof fn lemma_last_dot_none(s: Seq<char>)
    requires
        forall|j: int| 0 <= j < s.len() ==> s[j] != '.',
    ensures
        last_dot_index(s) == -1,
    decreases s.len(),
{
    if s.len() > 0 {
        lemma_last_dot_none(s.drop_last());
    }
}

/// Character-wise equality of two string slices, equivalent to equality of
/// their views.
pub fn str_eq(a: &str, b: &str) -> (r: bool)
    ensures
        r == (a@ == b@),
{
    let a_len = a.unicode_len();
    let b_len = b.unicode_len();
    if a_len != b_len {
        return false;
    }
    let mut i: usize = 0;
    while i < a_len
        invariant
            i <= a_len,
            a_len == a@.len(),
            a_len == b@.len(),
            forall|j: int| 0 <= j < i ==> a@[j] == b@[j],
        decreases a_len - i,
    {
        if a.get_char(i) != b.get_char(i) {
            assert(a@[i as int] != b@[i as int]);
            return false;
        }
        i += 1;
    }
    proof {
        assert(a@ =~= b@);
    }
    true
}

/// Whether `s` matches the key naming convention: one or more of `a-z`, `0-9`
/// and `_`.
pub fn matches_naming_conventions(s: &str) -> (r: bool)
    ensures
        r == is_valid_key(s@),
{
    let n = s.unicode_len();
    if n == 0 {
        return false;
    }
    let mut i: usize = 0;
    while i < n
        invariant
            i <= n,
            n == s@.len(),
            forall|j: int| 0 <= j < i ==> is_key_char(#[trigger] s@[j]),
        decreases n - i,
    {
        let c = s.get_char(i);
        if !(('a' <= c && c <= 'z') || ('0' <= c && c <= '9') || c == '_') {
            return false;
        }
        i += 1;
    }
    true
}

/// The position of the last `.` of `s`, scanning from the end.
fn find_last_dot(s: &str) -> (r: Option<usize>)
    ensures
        match r {
            Some(d) => d < s@.len() && last_dot_index(s@) == d,
            None => last_dot_index(s@) == -1,
        },
{
    let n = s.unicode_len();
    let mut i: usize = n;
    while i > 0
        invariant
            i <= n,
            n == s@.len(),
            forall|j: int| i <= j < n ==> s@[j] != '.',
        decreases i,
    {
        i = i - 1;
        let c = s.get_char(i);
        if c == '.' {
            proof {
                lemma_last_dot_at(s@, i as int);
            }
            return Some(i);
        }
    }
    proof {
        lemma_last_dot_none(s@);
    }
    None
}

/// Whether the file is a record file: its name carries the extension `yaml`
/// or `yml`, exactly and case-sensitively. Anything else, including a name
/// without an extension, is no record file.
pub fn is_yaml(file_name: &str) -> (r: bool)
    ensures
        r == spec_is_yaml(file_name@),
{
    let n = file_name.unicode_len();
    match find_last_dot(file_name) {
        None => false,
        Some(d) => {
            if d == 0 {
                false
            } else {
                let ext = file_name.substring_char(d + 1, n);
                str_eq(ext, "yaml") || str_eq(ext, "yml")
            }
        },
    }
}

/// The stem of the file name: the part before the final dot when the name has
/// an extension, the whole name otherwise. An empty name has no stem.
pub fn get_file_stem(file_name: &str) -> (r: Result<String, DirectoryError>)
    ensures
        match r {
            Ok(stem) => file_name@.len() > 0 && stem@ == spec_file_stem(file_name@),
            Err(e) => file_name@.len() == 0 && e@ == DirectoryErrorView::CouldNotReadFile,
        },
{
    let n = file_name.unicode_len();
    if n == 0 {
        return Err(DirectoryError::CouldNotReadFile);
    }
    match find_last_dot(file_name) {
        Some(d) => {
            if d >= 1 {
                Ok(file_name.substring_char(0, d).to_owned())
            } else {
                Ok(file_name.to_owned())
            }
        },
        None => Ok(file_name.to_owned()),
    }
}

/// Checks a record file's name against its resolved key: both the stem and
/// the key must match the naming convention, and then agree exactly.
pub fn check_filename_and_key(file_name: &str, key: &str) -> (r: Result<(), DirectoryError>)
    ensures
        match r {
            Ok(u) => spec_check_filename_and_key(file_name@, key@) == Ok::<(), DirectoryErrorView>(()),
            Err(e) => spec_check_filename_and_key(file_name@, key@) == Err::<(), DirectoryErrorView>(e@),
        },
{
    let stem = match get_file_stem(file_name) {
        Ok(s) => s,
        Err(e) => {
            return Err(e);
        },
    };
    if !matches_naming_conventions(stem.as_str()) {
        return Err(DirectoryError::ShouldMatchNamingConventions(stem));
    }
    if !matches_naming_conventions(key) {
        return Err(DirectoryError::ShouldMatchNamingConventions(key.to_owned()));
    }
    if !str_eq(stem.as_str(), key) {
        return Err(DirectoryError::FileNameAndKeyDoNotMatch(stem, key.to_owned()));
    }
    Ok(())
}

} // verus!
