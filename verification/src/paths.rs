//! Path names as character sequences.
//!
//! The helper never inspects the filesystem to interpret a path; it
//! reads a path as plain text. The final path component is what follows
//! the last `/`; its extension is what follows the last `.` of that
//! component, provided that `.` is not the component's first character;
//! its stem is what precedes that `.`.

use vstd::prelude::*;

verus! {

/// Index of the last occurrence of `c` in `s`, or `-1` when `c` does
/// not occur.
pub open spec fn last_at(s: Seq<char>, c: char) -> int
    decreases s.len(),
{
    if s.len() == 0 {
        -1
    } else if s[s.len() - 1] == c {
        s.len() - 1
    } else {
        last_at(s.drop_last(), c)
    }
}

pub proof fn lemma_last_at_props(s: Seq<char>, c: char)
    ensures
        -1 <= last_at(s, c) < s.len(),
        last_at(s, c) >= 0 ==> s[last_at(s, c)] == c,
        forall|j: int| last_at(s, c) < j < s.len() ==> s[j] != c,
    decreases s.len(),
{
    if s.len() == 0 {
    } else if s[s.len() - 1] == c {
    } else {
        lemma_last_at_props(s.drop_last(), c);
        assert forall|j: int| last_at(s, c) < j < s.len() implies s[j] != c by {
            if j < s.len() - 1 {
                assert(s.drop_last()[j] == s[j]);
            }
        }
    }
}

pub proof fn lemma_last_at_witness(s: Seq<char>, c: char, i: int)
    requires
        0 <= i < s.len(),
        s[i] == c,
        forall|j: int| i < j < s.len() ==> s[j] != c,
    ensures
        last_at(s, c) == i,
    decreases s.len(),
{
    if i == s.len() - 1 {
    } else {
        assert(s[s.len() - 1] != c);
        assert(s.drop_last()[i] == s[i]);
        assert forall|j: int| i < j < s.drop_last().len() implies s.drop_last()[j] != c by {
            assert(s.drop_last()[j] == s[j]);
        }
        lemma_last_at_witness(s.drop_last(), c, i);
    }
}

pub proof fn lemma_last_at_absent(s: Seq<char>, c: char)
    requires
        forall|j: int| 0 <= j < s.len() ==> s[j] != c,
    ensures
        last_at(s, c) == -1,
    decreases s.len(),
{
    if s.len() > 0 {
        assert forall|j: int| 0 <= j < s.drop_last().len() implies s.drop_last()[j] != c by {
            assert(s.drop_last()[j] == s[j]);
        }
        lemma_last_at_absent(s.drop_last(), c);
    }
}

/// Where the final path component of `p` begins.
pub open spec fn name_start(p: Seq<char>) -> int {
    last_at(p, '/') + 1
}

/// The final path component of `p`.
pub open spec fn file_name(p: Seq<char>) -> Seq<char> {
    p.subrange(name_start(p), p.len() as int)
}

/// The extension of the final path component of `p`: what follows the
/// last `.` of the component, provided that `.` is not the component's
/// first character.
pub open spec fn spec_extension(p: Seq<char>) -> Option<Seq<char>> {
    let name = file_name(p);
    if last_at(name, '.') >= 1 {
        Some(name.subrange(last_at(name, '.') + 1, name.len() as int))
    } else {
        None
    }
}

/// The stem of the final path component of `p`: what precedes the last
/// `.` when the component has an extension, the whole component
/// otherwise.
pub open spec fn spec_stem(p: Seq<char>) -> Seq<char> {
    let name = file_name(p);
    if last_at(name, '.') >= 1 {
        name.subrange(0, last_at(name, '.'))
    } else {
        name
    }
}

/// The final path component never holds a separator.
pub proof fn lemma_file_name_no_slash(p: Seq<char>)
    ensures
        forall|j: int| 0 <= j < file_name(p).len() ==> file_name(p)[j] != '/',
{
    lemma_last_at_props(p, '/');
    assert forall|j: int| 0 <= j < file_name(p).len() implies file_name(p)[j] != '/' by {
        assert(file_name(p)[j] == p[name_start(p) + j]);
    }
}

/// An extension never holds a dot or a separator.
pub proof fn lemma_extension_no_dot_no_slash(p: Seq<char>)
    requires
        spec_extension(p) is Some,
    ensures
        forall|j: int|
            0 <= j < spec_extension(p)->0.len() ==> spec_extension(p)->0[j] != '.'
                && spec_extension(p)->0[j] != '/',
{
    let name = file_name(p);
    lemma_last_at_props(name, '.');
    lemma_file_name_no_slash(p);
    let e = spec_extension(p)->0;
    assert forall|j: int| 0 <= j < e.len() implies e[j] != '.' && e[j] != '/' by {
        assert(e[j] == name[last_at(name, '.') + 1 + j]);
    }
}

/// A stem never holds a separator.
pub proof fn lemma_stem_no_slash(p: Seq<char>)
    ensures
        forall|j: int| 0 <= j < spec_stem(p).len() ==> spec_stem(p)[j] != '/',
{
    lemma_file_name_no_slash(p);
    lemma_last_at_props(file_name(p), '.');
    assert forall|j: int| 0 <= j < spec_stem(p).len() implies spec_stem(p)[j] != '/' by {
        assert(spec_stem(p)[j] == file_name(p)[j]);
    }
}

/// Index of the last occurrence of `c` in `s`, if any.
pub fn rfind_char(s: &str, c: char) -> (r: Option<usize>)
    ensures
        r matches Some(k) ==> k < s@.len() && k < usize::MAX && last_at(s@, c) == k as int,
        r is None ==> last_at(s@, c) == -1,
{
    let n: usize = s.unicode_len();
    let mut i: usize = n;
    while i > 0
        invariant
            i <= n,
            n == s@.len(),
            forall|j: int| i <= j < n ==> s@[j] != c,
        decreases i,
    {
        if s.get_char(i - 1) == c {
            proof {
                lemma_last_at_witness(s@, c, i - 1);
            }
            return Some(i - 1);
        }
        i = i - 1;
    }
    proof {
        lemma_last_at_absent(s@, c);
    }
    None
}

/// Where the final path component of `s` begins.
fn find_name_start(s: &str) -> (r: usize)
    ensures
        r as int == name_start(s@),
        r <= s@.len(),
{
    proof {
        lemma_last_at_props(s@, '/');
    }
    match rfind_char(s, '/') {
        Some(k) => k + 1,
        None => 0,
    }
}

/// The extension of the final path component of `path`, if it has one.
pub fn extension_of(path: &str) -> (r: Option<String>)
    ensures
        r is Some <==> spec_extension(path@) is Some,
        r matches Some(e) ==> spec_extension(path@) == Some(e@),
{
    let n: usize = path.unicode_len();
    let ns: usize = find_name_start(path);
    let ghost name = file_name(path@);
    match rfind_char(path, '.') {
        Some(g) => {
            proof {
                lemma_last_at_props(path@, '.');
                if g >= ns {
                    assert(name[g - ns] == path@[name_start(path@) + (g - ns)]);
                    assert forall|j: int| g - ns < j < name.len() implies name[j] != '.' by {
                        assert(name[j] == path@[name_start(path@) + j]);
                    }
                    lemma_last_at_witness(name, '.', g - ns);
                } else {
                    assert forall|j: int| 0 <= j < name.len() implies name[j] != '.' by {
                        assert(name[j] == path@[name_start(path@) + j]);
                    }
                    lemma_last_at_absent(name, '.');
                }
            }
            if g > ns {
                proof {
                    assert(path@.subrange(g + 1, n as int) =~= name.subrange(
                        last_at(name, '.') + 1,
                        name.len() as int,
                    ));
                }
                Some(path.substring_char(g + 1, n).to_owned())
            } else {
                None
            }
        },
        None => {
            proof {
                lemma_last_at_props(path@, '.');
                assert forall|j: int| 0 <= j < name.len() implies name[j] != '.' by {
                    assert(name[j] == path@[name_start(path@) + j]);
                }
                lemma_last_at_absent(name, '.');
            }
            None
        },
    }
}

/// The stem of the final path component of `path`, for a path that has
/// an extension.
pub fn stem_of(path: &str) -> (r: String)
    requires
        spec_extension(path@) is Some,
    ensures
        r@ == spec_stem(path@),
{
    let ns: usize = find_name_start(path);
    let ghost name = file_name(path@);
    proof {
        lemma_last_at_props(name, '.');
        let d = last_at(name, '.');
        assert(name[d] == path@[name_start(path@) + d]);
        assert forall|j: int| name_start(path@) + d < j < path@.len() implies path@[j] != '.' by {
            assert(path@[j] == name[j - name_start(path@)]);
        }
        lemma_last_at_witness(path@, '.', name_start(path@) + d);
    }
    match rfind_char(path, '.') {
        Some(g) => {
            proof {
                assert(path@.subrange(ns as int, g as int) =~= name.subrange(
                    0,
                    last_at(name, '.'),
                ));
            }
            path.substring_char(ns, g).to_owned()
        },
        None => unreached(),
    }
}

/// Whether `e` names one of the two accepted container extensions,
/// compared without regard to ASCII case.
pub open spec fn spec_supported_ext(e: Seq<char>) -> bool {
    &&& e.len() == 3
    &&& (e[0] == 'm' || e[0] == 'M')
    &&& {
        ||| ((e[1] == 'p' || e[1] == 'P') && e[2] == '4')
        ||| ((e[1] == 'o' || e[1] == 'O') && (e[2] == 'v' || e[2] == 'V'))
    }
}

/// Whether `p` names a file the helper accepts: its final component has
/// an extension and the extension is on the allow-list.
pub open spec fn spec_accepts(p: Seq<char>) -> bool {
    spec_extension(p) matches Some(e) && spec_supported_ext(e)
}

/// Whether `ext` is on the allow-list of container extensions.
pub fn is_supported_extension(ext: &str) -> (r: bool)
    ensures
        r == spec_supported_ext(ext@),
{
    if ext.unicode_len() != 3 {
        return false;
    }
    let c0 = ext.get_char(0);
    let c1 = ext.get_char(1);
    let c2 = ext.get_char(2);
    (c0 == 'm' || c0 == 'M') && (((c1 == 'p' || c1 == 'P') && c2 == '4') || ((c1 == 'o' || c1
        == 'O') && (c2 == 'v' || c2 == 'V')))
}

} // verus!
