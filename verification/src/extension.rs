//! The extension of a path, read from its bytes.
//!
//! A path is a byte string whose components are separated by `/`. Its file
//! name is its final component, where trailing separators and trailing `.`
//! components count for nothing and `..` is no name. The extension is what
//! follows the last `.` of the file name, unless that `.` opens the name.

use crate::ascii::{
    eq_ignore_ascii_case, eq_ignore_case, lemma_eq_ignore_case_symmetric,
    lemma_eq_ignore_case_transitive, lower,
};
use vstd::prelude::*;
use vstd::slice::slice_subrange;
use vstd::string::StringSliceAdditionalSpecFns;

verus! {

/// The byte that separates the components of a path.
pub const SEPARATOR: u8 = 0x2f;

/// The byte that separates a file name from its extension.
pub const DOT: u8 = 0x2e;

/// The index of the last `b` in `s`, or -1 where `s` holds none.
pub open spec fn last_index_of(s: Seq<u8>, b: u8) -> int
    decreases s.len(),
{
    if s.len() == 0 {
        -1
    } else if s.last() == b {
        s.len() - 1
    } else {
        last_index_of(s.drop_last(), b)
    }
}

/// Whether the last byte of `path` belongs to no component that can name a
/// file: it is a separator, or a `.` that is a whole component.
pub open spec fn ends_in_filler(path: Seq<u8>) -> bool {
    path.len() > 0 && (path.last() == SEPARATOR || (path.last() == DOT && (path.len() == 1
        || path[path.len() - 2] == SEPARATOR)))
}

/// `path` without its trailing separators and trailing `.` components.
pub open spec fn trimmed(path: Seq<u8>) -> Seq<u8>
    decreases path.len(),
{
    if ends_in_filler(path) {
        trimmed(path.drop_last())
    } else {
        path
    }
}

/// The two bytes `..`.
pub open spec fn is_parent(name: Seq<u8>) -> bool {
    name.len() == 2 && name[0] == DOT && name[1] == DOT
}

/// The file name of `path`: its final component, if it has one that is not `..`.
pub open spec fn final_component(path: Seq<u8>) -> Option<Seq<u8>> {
    let body = trimmed(path);
    let name = body.subrange(last_index_of(body, SEPARATOR) + 1, body.len() as int);
    if name.len() == 0 || is_parent(name) {
        None
    } else {
        Some(name)
    }
}

/// The extension of a file name: what follows its last `.`, unless the name
/// holds no `.` or only the one that opens it.
pub open spec fn extension_of_name(name: Seq<u8>) -> Option<Seq<u8>> {
    let dot = last_index_of(name, DOT);
    if dot <= 0 {
        None
    } else {
        Some(name.subrange(dot + 1, name.len() as int))
    }
}

/// The extension of `path`: that of its file name.
pub open spec fn extension_of(path: Seq<u8>) -> Option<Seq<u8>> {
    match final_component(path) {
        Some(name) => extension_of_name(name),
        None => None,
    }
}

/// The bytes of each extension of a list.
pub open spec fn names_of(extensions: Seq<&str>) -> Seq<Seq<u8>> {
    Seq::new(extensions.len(), |i: int| extensions[i].spec_bytes())
}

/// Whether `ext` is, ignoring the case of ASCII letters, one of `extensions`.
pub open spec fn listed(ext: Seq<u8>, extensions: Seq<Seq<u8>>) -> bool {
    exists|i: int| 0 <= i < extensions.len() && eq_ignore_case(#[trigger] extensions[i], ext)
}

/// Whether `path` has an extension and `extensions` lists it.
pub open spec fn matches_any(path: Seq<u8>, extensions: Seq<Seq<u8>>) -> bool {
    match extension_of(path) {
        Some(ext) => listed(ext, extensions),
        None => false,
    }
}

/// What `last_index_of` returns is the place of a `b` after which no `b` follows.
pub proof fn lemma_last_index_of(s: Seq<u8>, b: u8)
    ensures
        -1 <= last_index_of(s, b) < s.len(),
        last_index_of(s, b) >= 0 ==> s[last_index_of(s, b)] == b,
        forall|j: int| last_index_of(s, b) < j < s.len() ==> s[j] != b,
    decreases s.len(),
{
    if s.len() > 0 && s.last() != b {
        let front = s.drop_last();
        lemma_last_index_of(front, b);
        assert forall|j: int| last_index_of(s, b) < j < s.len() implies s[j] != b by {
            if j < front.len() {
                assert(front[j] == s[j]);
            }
        }
    }
}

/// Finds the last `b` in `s`.
pub fn last_index(s: &[u8], b: u8) -> (found: Option<usize>)
    ensures
        match found {
            Some(k) => k == last_index_of(s@, b),
            None => last_index_of(s@, b) == -1,
        },
{
    let mut i: usize = s.len();
    assert(s@.subrange(0, i as int) =~= s@);
    while i > 0
        invariant
            i <= s.len(),
            last_index_of(s@, b) == last_index_of(s@.subrange(0, i as int), b),
        decreases i,
    {
        if s[i - 1] == b {
            return Some(i - 1);
        }
        assert(s@.subrange(0, i as int).drop_last() =~= s@.subrange(0, i - 1));
        i -= 1;
    }
    None
}

/// The length of `path` once its trailing separators and `.` components are cut.
fn trimmed_len(path: &[u8]) -> (end: usize)
    ensures
        end <= path.len(),
        trimmed(path@) == path@.subrange(0, end as int),
{
    let mut end: usize = path.len();
    assert(path@.subrange(0, end as int) =~= path@);
    loop
        invariant
            end <= path.len(),
            trimmed(path@) == trimmed(path@.subrange(0, end as int)),
        ensures
            end <= path.len(),
            trimmed(path@) == path@.subrange(0, end as int),
        decreases end,
    {
        if end == 0 {
            break;
        }
        let last: u8 = path[end - 1];
        let filler: bool = last == SEPARATOR || (last == DOT && (end == 1 || path[end - 2]
            == SEPARATOR));
        if !filler {
            break;
        }
        assert(path@.subrange(0, end as int).drop_last() =~= path@.subrange(0, end - 1));
        end -= 1;
    }
    end
}

/// The file name of `path`.
pub fn file_name(path: &[u8]) -> (name: Option<&[u8]>)
    ensures
        match name {
            Some(n) => final_component(path@) == Some(n@),
            None => final_component(path@) is None,
        },
{
    let end: usize = trimmed_len(path);
    let body = slice_subrange(path, 0, end);
    proof {
        lemma_last_index_of(body@, SEPARATOR);
    }
    let start: usize = match last_index(body, SEPARATOR) {
        Some(k) => k + 1,
        None => 0,
    };
    let name = slice_subrange(body, start, end);
    if name.len() == 0 || (name.len() == 2 && name[0] == DOT && name[1] == DOT) {
        None
    } else {
        Some(name)
    }
}

/// The extension of `path`.
pub fn extension(path: &[u8]) -> (ext: Option<&[u8]>)
    ensures
        match ext {
            Some(e) => extension_of(path@) == Some(e@),
            None => extension_of(path@) is None,
        },
{
    match file_name(path) {
        None => None,
        Some(name) => {
            let len: usize = name.len();
            proof {
                lemma_last_index_of(name@, DOT);
            }
            match last_index(name, DOT) {
                None => None,
                Some(dot) => {
                    if dot == 0 {
                        None
                    } else {
                        Some(slice_subrange(name, dot + 1, len))
                    }
                },
            }
        },
    }
}

/// A byte that is no ASCII letter.
pub open spec fn caseless(c: u8) -> bool {
    !(0x41 <= c <= 0x5a) && !(0x61 <= c <= 0x7a)
}

/// Two strings that differ in case only hold the same stretch of bytes,
/// up to case, between any two places.
proof fn lemma_subrange_ignores_case(a: Seq<u8>, b: Seq<u8>, from: int, to: int)
    requires
        eq_ignore_case(a, b),
        0 <= from <= to <= a.len(),
    ensures
        eq_ignore_case(a.subrange(from, to), b.subrange(from, to)),
{
    let x = a.subrange(from, to);
    let y = b.subrange(from, to);
    assert forall|i: int| 0 <= i < x.len() implies lower(#[trigger] x[i]) == lower(y[i]) by {
        assert(lower(a[from + i]) == lower(b[from + i]));
    }
}

/// Two strings that differ in case only hold a byte that is no letter at
/// the same places.
proof fn lemma_last_index_ignores_case(a: Seq<u8>, b: Seq<u8>, c: u8)
    requires
        eq_ignore_case(a, b),
        caseless(c),
    ensures
        last_index_of(a, c) == last_index_of(b, c),
    decreases a.len(),
{
    if a.len() > 0 {
        assert(lower(a[a.len() - 1]) == lower(b[a.len() - 1]));
        lemma_subrange_ignores_case(a, b, 0, a.len() - 1);
        assert(a.subrange(0, a.len() - 1) =~= a.drop_last());
        assert(b.subrange(0, a.len() - 1) =~= b.drop_last());
        lemma_last_index_ignores_case(a.drop_last(), b.drop_last(), c);
    }
}

/// Two paths that differ in case only are trimmed to the same length.
proof fn lemma_trimmed_ignores_case(a: Seq<u8>, b: Seq<u8>)
    requires
        eq_ignore_case(a, b),
    ensures
        eq_ignore_case(trimmed(a), trimmed(b)),
    decreases a.len(),
{
    if a.len() > 0 {
        assert(lower(a[a.len() - 1]) == lower(b[a.len() - 1]));
        if a.len() > 1 {
            assert(lower(a[a.len() - 2]) == lower(b[a.len() - 2]));
        }
        assert(ends_in_filler(a) == ends_in_filler(b));
        if ends_in_filler(a) {
            lemma_subrange_ignores_case(a, b, 0, a.len() - 1);
            assert(a.subrange(0, a.len() - 1) =~= a.drop_last());
            assert(b.subrange(0, a.len() - 1) =~= b.drop_last());
            lemma_trimmed_ignores_case(a.drop_last(), b.drop_last());
        }
    }
}

/// Two paths that differ in case only have extensions that differ in case
/// only, or none.
pub proof fn lemma_extension_ignores_case(a: Seq<u8>, b: Seq<u8>)
    requires
        eq_ignore_case(a, b),
    ensures
        extension_of(a) is Some == extension_of(b) is Some,
        extension_of(a) is Some ==> eq_ignore_case(
            extension_of(a)->Some_0,
            extension_of(b)->Some_0,
        ),
{
    lemma_trimmed_ignores_case(a, b);
    let x = trimmed(a);
    let y = trimmed(b);
    lemma_last_index_ignores_case(x, y, SEPARATOR);
    lemma_last_index_of(x, SEPARATOR);
    let start = last_index_of(x, SEPARATOR) + 1;
    lemma_subrange_ignores_case(x, y, start, x.len() as int);
    let m = x.subrange(start, x.len() as int);
    let n = y.subrange(start, y.len() as int);
    if m.len() == 2 {
        assert(lower(m[0]) == lower(n[0]));
        assert(lower(m[1]) == lower(n[1]));
    }
    assert(is_parent(m) == is_parent(n));
    if final_component(a) is Some {
        lemma_last_index_ignores_case(m, n, DOT);
        lemma_last_index_of(m, DOT);
        let dot = last_index_of(m, DOT);
        if dot > 0 {
            lemma_subrange_ignores_case(m, n, dot + 1, m.len() as int);
        }
    }
}

/// Whether an extension is listed does not depend on its case.
pub proof fn lemma_listed_ignores_case(a: Seq<u8>, b: Seq<u8>, extensions: Seq<Seq<u8>>)
    requires
        eq_ignore_case(a, b),
    ensures
        listed(a, extensions) == listed(b, extensions),
{
    if listed(a, extensions) {
        let i = choose|i: int|
            0 <= i < extensions.len() && eq_ignore_case(#[trigger] extensions[i], a);
        lemma_eq_ignore_case_transitive(extensions[i], a, b);
    }
    if listed(b, extensions) {
        let i = choose|i: int|
            0 <= i < extensions.len() && eq_ignore_case(#[trigger] extensions[i], b);
        lemma_eq_ignore_case_symmetric(a, b);
        lemma_eq_ignore_case_transitive(extensions[i], b, a);
    }
}

/// Matching is case-insensitive: two paths that differ only in the case of
/// ASCII letters match the same lists of extensions.
pub proof fn lemma_match_ignores_case(a: Seq<u8>, b: Seq<u8>, extensions: Seq<Seq<u8>>)
    requires
        eq_ignore_case(a, b),
    ensures
        matches_any(a, extensions) == matches_any(b, extensions),
{
    lemma_extension_ignores_case(a, b);
    if extension_of(a) is Some {
        lemma_listed_ignores_case(
            extension_of(a)->Some_0,
            extension_of(b)->Some_0,
            extensions,
        );
    }
}

/// A path that can be asked whether its extension is one of a list.
pub trait FileExtension {
    /// The path as bytes.
    spec fn path_bytes(&self) -> Seq<u8>;

    /// Whether the extension of the path is, ignoring the case of ASCII
    /// letters, one of `extensions`. A path without an extension matches none.
    fn has_extension(&self, extensions: &[&str]) -> (found: bool)
        ensures
            found == matches_any(self.path_bytes(), names_of(extensions@)),
            extension_of(self.path_bytes()) is None ==> !found,
    ;
}

impl FileExtension for [u8] {
    open spec fn path_bytes(&self) -> Seq<u8> {
        self@
    }

    fn has_extension(&self, extensions: &[&str]) -> (found: bool) {
        match extension(self) {
            None => false,
            Some(ext) => {
                let ghost names = names_of(extensions@);
                let mut i: usize = 0;
                while i < extensions.len()
                    invariant
                        i <= extensions.len(),
                        names == names_of(extensions@),
                        extension_of(self@) == Some(ext@),
                        forall|j: int| 0 <= j < i ==> !eq_ignore_case(#[trigger] names[j], ext@),
                    decreases extensions.len() - i,
                {
                    if eq_ignore_ascii_case(extensions[i].as_bytes(), ext) {
                        assert(eq_ignore_case(names[i as int], ext@));
                        return true;
                    }
                    i += 1;
                }
                false
            },
        }
    }
}

impl FileExtension for Vec<u8> {
    open spec fn path_bytes(&self) -> Seq<u8> {
        self@
    }

    fn has_extension(&self, extensions: &[&str]) -> (found: bool) {
        self.as_slice().has_extension(extensions)
    }
}

impl FileExtension for str {
    open spec fn path_bytes(&self) -> Seq<u8> {
        self.spec_bytes()
    }

    fn has_extension(&self, extensions: &[&str]) -> (found: bool) {
        self.as_bytes().has_extension(extensions)
    }
}

impl FileExtension for String {
    open spec fn path_bytes(&self) -> Seq<u8> {
        vstd::utf8::encode_utf8(self@)
    }

    fn has_extension(&self, extensions: &[&str]) -> (found: bool) {
        self.as_str().has_extension(extensions)
    }
}

} // verus!
