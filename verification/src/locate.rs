//! The recursive font locator: a depth-first walk of a directory tree that
//! returns the first file whose name answers the request.  The walk visits
//! the entries of each directory in ascending name order (so the traversal
//! order does not depend on how the operating system happens to list a
//! directory), descends into a subdirectory before looking at later
//! entries, and never follows a symlinked directory.

use vstd::prelude::*;

use crate::matching::font_file_name_matches;
use crate::matching::name_matches;
use crate::resolver::get_sys_font_dirs;
use crate::resolver::linux_font_dir_list;
use crate::sys;
use crate::text::join;
use crate::text::join_path;
use crate::text::lemma_join_path_prefix;
use crate::text::lemma_prefix_transitive;

verus! {

/// Strict lexicographic order on character sequences, by code point.
pub open spec fn lex_lt(a: Seq<char>, b: Seq<char>) -> bool
    decreases a.len(),
{
    if b.len() == 0 {
        false
    } else if a.len() == 0 {
        true
    } else if (a[0] as int) < (b[0] as int) {
        true
    } else if a[0] == b[0] {
        lex_lt(a.drop_first(), b.drop_first())
    } else {
        false
    }
}

pub open spec fn lex_leq(a: Seq<char>, b: Seq<char>) -> bool {
    lex_lt(a, b) || a == b
}

/// Any two sequences are ordered one way or the other, or are equal.
proof fn lemma_lex_connex(a: Seq<char>, b: Seq<char>)
    ensures
        lex_lt(a, b) || lex_lt(b, a) || a == b,
    decreases a.len(),
{
    if a.len() == 0 && b.len() == 0 {
        assert(a =~= b);
    } else if a.len() > 0 && b.len() > 0 && a[0] == b[0] {
        lemma_lex_connex(a.drop_first(), b.drop_first());
        if a.drop_first() == b.drop_first() {
            assert(a.len() == b.len());
            assert forall|i: int| 0 <= i < a.len() implies a[i] == b[i] by {
                if i > 0 {
                    assert(a[i] == a.drop_first()[i - 1]);
                    assert(b[i] == b.drop_first()[i - 1]);
                }
            }
            assert(a =~= b);
        }
    }
}

proof fn lemma_lex_lt_trans(a: Seq<char>, b: Seq<char>, c: Seq<char>)
    requires
        lex_lt(a, b),
        lex_lt(b, c),
    ensures
        lex_lt(a, c),
    decreases a.len(),
{
    if a.len() > 0 && b.len() > 0 && c.len() > 0 {
        if a[0] == b[0] && b[0] == c[0] {
            lemma_lex_lt_trans(a.drop_first(), b.drop_first(), c.drop_first());
        }
    }
}

proof fn lemma_lex_lt_leq_trans(a: Seq<char>, b: Seq<char>, c: Seq<char>)
    requires
        lex_lt(a, b),
        lex_leq(b, c),
    ensures
        lex_lt(a, c),
{
    if b != c {
        lemma_lex_lt_trans(a, b, c);
    }
}

/// Compares two strings in lexicographic order by code point.
pub fn str_lex_lt(a: &str, b: &str) -> (r: bool)
    ensures
        r == lex_lt(a@, b@),
{
    let an = a.unicode_len();
    let bn = b.unicode_len();
    let mut i: usize = 0;
    proof {
        assert(a@.subrange(0, an as int) =~= a@);
        assert(b@.subrange(0, bn as int) =~= b@);
    }
    while i < an && i < bn
        invariant
            i <= an,
            i <= bn,
            an == a@.len(),
            bn == b@.len(),
            lex_lt(a@, b@) == lex_lt(
                a@.subrange(i as int, an as int),
                b@.subrange(i as int, bn as int),
            ),
        decreases an - i,
    {
        let ghost sa = a@.subrange(i as int, an as int);
        let ghost sb = b@.subrange(i as int, bn as int);
        let ca = a.get_char(i);
        let cb = b.get_char(i);
        proof {
            assert(sa[0] == a@[i as int]);
            assert(sb[0] == b@[i as int]);
        }
        if (ca as u32) < (cb as u32) {
            return true;
        }
        if ca != cb {
            return false;
        }
        proof {
            assert(sa.drop_first() =~= a@.subrange((i + 1) as int, an as int));
            assert(sb.drop_first() =~= b@.subrange((i + 1) as int, bn as int));
        }
        i += 1;
    }
    proof {
        if i == an && an < bn {
            assert(lex_lt(a@, b@));
        } else {
            assert(b@.subrange(i as int, bn as int).len() == 0);
            assert(!lex_lt(a@, b@));
        }
    }
    i == an && an < bn
}

/// The sequence is ascending: every earlier name is at most every later one.
pub open spec fn names_sorted(s: Seq<Seq<char>>) -> bool {
    forall|p: int, q: int| 0 <= p < q < s.len() ==> lex_leq(s[p], s[q])
}

/// Sorts names ascending by code point.  The result holds exactly the given
/// names, rearranged.
pub fn sorted_by_name(names: Vec<String>) -> (r: Vec<String>)
    ensures
        names_sorted(r.deep_view()),
        r.deep_view().to_multiset() == names.deep_view().to_multiset(),
{
    broadcast use vstd::seq_lib::group_to_multiset_ensures;

    let ghost orig = names.deep_view();
    let mut v = names;
    let mut out: Vec<String> = Vec::new();
    while v.len() > 0
        invariant
            out.deep_view().to_multiset().add(v.deep_view().to_multiset()) == orig.to_multiset(),
            names_sorted(out.deep_view()),
            forall|p: int, q: int|
                0 <= p < out@.len() && 0 <= q < v@.len() ==> lex_leq(
                    out.deep_view()[p],
                    v.deep_view()[q],
                ),
        decreases v@.len(),
    {
        let mut m: usize = 0;
        let mut k: usize = 1;
        while k < v.len()
            invariant
                0 < v@.len(),
                m < k,
                k <= v@.len(),
                forall|t: int|
                    0 <= t < k ==> lex_leq(v.deep_view()[m as int], v.deep_view()[t]),
            decreases v@.len() - k,
        {
            if str_lex_lt(v[k].as_str(), v[m].as_str()) {
                proof {
                    assert forall|t: int| 0 <= t < k + 1 implies lex_leq(
                        v.deep_view()[k as int],
                        v.deep_view()[t],
                    ) by {
                        if t < k {
                            lemma_lex_lt_leq_trans(
                                v.deep_view()[k as int],
                                v.deep_view()[m as int],
                                v.deep_view()[t],
                            );
                        }
                    }
                }
                m = k;
            } else {
                proof {
                    lemma_lex_connex(v.deep_view()[k as int], v.deep_view()[m as int]);
                }
            }
            k += 1;
        }
        let ghost vd = v.deep_view();
        let ghost outd = out.deep_view();
        let x = v.remove(m);
        out.push(x);
        proof {
            assert(v.deep_view() =~= vd.remove(m as int));
            assert(out.deep_view() =~= outd.push(vd[m as int]));
            vd.to_multiset_ensures();
            outd.to_multiset_ensures();
            assert(vd.remove(m as int).to_multiset() =~= vd.to_multiset().remove(vd[m as int]));
            assert(outd.push(vd[m as int]).to_multiset() =~= outd.to_multiset().insert(
                vd[m as int],
            ));
            assert(vd.contains(vd[m as int]));
            assert(vd.to_multiset().count(vd[m as int]) > 0);
            assert(out.deep_view().to_multiset().add(v.deep_view().to_multiset())
                =~= orig.to_multiset());
            assert forall|p: int, q: int| 0 <= p < q < out.deep_view().len() implies lex_leq(
                out.deep_view()[p],
                out.deep_view()[q],
            ) by {
                if q == out.deep_view().len() - 1 {
                    assert(out.deep_view()[q] == vd[m as int]);
                }
            }
            assert forall|p: int, q: int|
                0 <= p < out@.len() && 0 <= q < v@.len() implies lex_leq(
                out.deep_view()[p],
                v.deep_view()[q],
            ) by {
                if q < m {
                    assert(v.deep_view()[q] == vd[q]);
                } else {
                    assert(v.deep_view()[q] == vd[q + 1]);
                }
            }
        }
    }
    out
}

/// The path names a file whose name answers the request, somewhere under
/// `dir`.
pub open spec fn matching_path(p: Seq<char>, dir: Seq<char>, font: Seq<char>) -> bool {
    &&& dir.is_prefix_of(p)
    &&& exists|d: Seq<char>, n: Seq<char>| p == join_path(d, n) && name_matches(n, font)
}

/// How deep the walk will go below the starting directory: far beyond any
/// nesting a real filesystem allows, since the host bounds the length of a
/// path well below this.
pub const MAX_SEARCH_DEPTH: u64 = 4096;

fn find_font_in_dir_recursive(dir_path: &str, font_name: &str, depth: u64) -> (r: Option<String>)
    ensures
        r matches Some(p) ==> matching_path(p@, dir_path@, font_name@),
    decreases depth,
{
    let entries = match sys::read_dir_names(dir_path) {
        Some(e) => e,
        None => {
            return None;
        },
    };
    let entries = sorted_by_name(entries);
    let mut i: usize = 0;
    while i < entries.len()
        invariant
            i <= entries@.len(),
        decreases entries@.len() - i,
    {
        let entry_path = join(dir_path, entries[i].as_str());
        proof {
            lemma_join_path_prefix(dir_path@, entries@[i as int]@);
        }
        if sys::is_dir(entry_path.as_str()) && !sys::is_symlink(entry_path.as_str()) {
            if depth > 0 {
                match find_font_in_dir_recursive(entry_path.as_str(), font_name, depth - 1) {
                    Some(found) => {
                        proof {
                            lemma_prefix_transitive(dir_path@, entry_path@, found@);
                        }
                        return Some(found);
                    },
                    None => {},
                }
            }
        } else if sys::is_file(entry_path.as_str()) {
            if font_file_name_matches(entries[i].as_str(), font_name) {
                proof {
                    let d = dir_path@;
                    let n = entries@[i as int]@;
                    assert(entry_path@ == join_path(d, n) && name_matches(n, font_name@));
                }
                return Some(entry_path);
            }
        }
        i += 1;
    }
    None
}

/// Searches `dir` and its subdirectories depth-first for a file whose name
/// answers the request: the first match in traversal order is returned.
/// Entries are visited in ascending name order; a subdirectory is fully
/// searched before any later entry of its parent is looked at; symlinked
/// directories are never entered; a directory that cannot be read counts
/// as empty.
pub fn find_in_dir(dir: &str, font_name: &str) -> (r: Option<String>)
    ensures
        r matches Some(p) ==> matching_path(p@, dir@, font_name@),
{
    find_font_in_dir_recursive(dir, font_name, MAX_SEARCH_DEPTH)
}

/// The path of the first file answering the request for `font_name` in the
/// candidate font directories of this host, searched in order; absent when
/// no candidate directory holds a match.
pub fn find(font_name: &str) -> (r: Option<String>)
    ensures
        r matches Some(p) ==> exists|home: Option<Seq<char>>, dir: Seq<char>|
            linux_font_dir_list(
                home,
                Option::<Seq<char>>::None,
                Option::<Seq<char>>::None,
            ).contains(dir) && matching_path(p@, dir, font_name@),
{
    let dirs = get_sys_font_dirs();
    let ghost h = choose|home: Option<Seq<char>>|
        dirs.deep_view() == linux_font_dir_list(
            home,
            Option::<Seq<char>>::None,
            Option::<Seq<char>>::None,
        );
    let mut i: usize = 0;
    while i < dirs.len()
        invariant
            i <= dirs@.len(),
            dirs.deep_view() == linux_font_dir_list(
                h,
                Option::<Seq<char>>::None,
                Option::<Seq<char>>::None,
            ),
        decreases dirs@.len() - i,
    {
        match find_in_dir(dirs[i].as_str(), font_name) {
            Some(found) => {
                proof {
                    let list = linux_font_dir_list(
                        h,
                        Option::<Seq<char>>::None,
                        Option::<Seq<char>>::None,
                    );
                    assert(list[i as int] == dirs@[i as int]@);
                    assert(list.contains(dirs@[i as int]@));
                }
                return Some(found);
            },
            None => {},
        }
        i += 1;
    }
    None
}

} // verus!
