//! Character and string helpers: case-insensitive comparison, lexicographic
//! order, path-list splitting and path joining, each with an exact
//! specification over sequences of characters.

use vstd::prelude::*;

verus! {

/// Code point of a character, with the ASCII capital letters folded onto
/// the corresponding small letters; every other character is left alone.
pub open spec fn lower_code(c: char) -> int {
    if 'A' as int <= c as int && c as int <= 'Z' as int {
        c as int + 32
    } else {
        c as int
    }
}

/// Two character sequences are equal ignoring ASCII case: same length, and
/// the characters at each position fold to the same code point.
pub open spec fn eq_ignore_case(a: Seq<char>, b: Seq<char>) -> bool {
    &&& a.len() == b.len()
    &&& forall|i: int| 0 <= i < a.len() ==> lower_code(a[i]) == lower_code(b[i])
}

/// Compares two strings for equality ignoring ASCII case.
pub fn str_eq_ignore_case(a: &str, b: &str) -> (r: bool)
    ensures
        r == eq_ignore_case(a@, b@),
{
    let a_len = a.unicode_len();
    let b_len = b.unicode_len();
    if a_len != b_len {
        return false;
    }
    let mut i: usize = 0;
    while i < a_len
        invariant
            i <= a_len,
            a_len == a@.len(),
            a_len == b@.len(),
            forall|j: int| 0 <= j < i ==> lower_code(a@[j]) == lower_code(b@[j]),
        decreases a_len - i,
    {
        let ca = a.get_char(i) as u32;
        let cb = b.get_char(i) as u32;
        let la: u32 = if 65 <= ca && ca <= 90 { ca + 32 } else { ca };
        let lb: u32 = if 65 <= cb && cb <= 90 { cb + 32 } else { cb };
        if la != lb {
            return false;
        }
        i += 1;
    }
    true
}

/// A path with one more component: a separator is inserted only where the
/// base does not already end in one, and an empty base contributes nothing.
pub open spec fn join_path(dir: Seq<char>, name: Seq<char>) -> Seq<char> {
    if dir.len() == 0 {
        name
    } else if dir[dir.len() - 1] == '/' {
        dir + name
    } else {
        dir + "/"@ + name
    }
}

/// Appends a file name to a directory path, inserting `/` where needed.
pub fn join(dir: &str, name: &str) -> (r: String)
    ensures
        r@ == join_path(dir@, name@),
{
    let dir_len = dir.unicode_len();
    if dir_len == 0 {
        name.to_owned()
    } else if dir.get_char(dir_len - 1) == '/' {
        let mut s = dir.to_owned();
        s.append(name);
        s
    } else {
        let mut s = dir.to_owned();
        s.append("/");
        s.append(name);
        s
    }
}

/// The pieces of `s` between occurrences of `sep`, in order.  A string
/// without the separator is one piece, so the empty string splits into one
/// empty piece.
pub open spec fn split_at_char(s: Seq<char>, sep: char) -> Seq<Seq<char>>
    decreases s.len(),
{
    if s.len() == 0 {
        seq![Seq::<char>::empty()]
    } else if s[0] == sep {
        seq![Seq::<char>::empty()] + split_at_char(s.drop_first(), sep)
    } else {
        let rest = split_at_char(s.drop_first(), sep);
        seq![seq![s[0]] + rest[0]] + rest.drop_first()
    }
}

pub proof fn lemma_split_at_char_len(s: Seq<char>, sep: char)
    ensures
        split_at_char(s, sep).len() >= 1,
    decreases s.len(),
{
    if s.len() != 0 {
        lemma_split_at_char_len(s.drop_first(), sep);
    }
}

/// Splitting takes off the first piece: if the first `k` characters of `s`
/// hold no separator, they are the first piece, ended either by a separator
/// at `k` or by the end of the string.
pub proof fn lemma_split_at_char_head(s: Seq<char>, sep: char, k: int)
    requires
        0 <= k <= s.len(),
        forall|j: int| 0 <= j < k ==> s[j] != sep,
        k < s.len() ==> s[k] == sep,
    ensures
        k < s.len() ==> split_at_char(s, sep) == seq![s.subrange(0, k)] + split_at_char(
            s.subrange(k + 1, s.len() as int),
            sep,
        ),
        k == s.len() ==> split_at_char(s, sep) == seq![s],
    decreases s.len(),
{
    if s.len() == 0 {
        assert(split_at_char(s, sep) =~~= seq![s]);
    } else if k == 0 {
        if k < s.len() {
            assert(s.subrange(0, 0) =~= Seq::<char>::empty());
            assert(s.drop_first() =~= s.subrange(1, s.len() as int));
        }
    } else {
        let t = s.drop_first();
        lemma_split_at_char_head(t, sep, k - 1);
        lemma_split_at_char_len(t, sep);
        if k < s.len() {
            assert(t.subrange(k - 1 + 1, t.len() as int) =~= s.subrange(k + 1, s.len() as int));
            let rest = split_at_char(t, sep);
            assert(rest[0] == t.subrange(0, k - 1));
            assert(seq![s[0]] + t.subrange(0, k - 1) =~= s.subrange(0, k));
            assert(rest.drop_first() =~= split_at_char(s.subrange(k + 1, s.len() as int), sep));
            assert(split_at_char(s, sep) =~= seq![s.subrange(0, k)] + split_at_char(
                s.subrange(k + 1, s.len() as int),
                sep,
            ));
        } else {
            assert(seq![s[0]] + t =~= s);
            assert(split_at_char(s, sep) =~~= seq![s]);
        }
    }
}

/// Splits a string at every occurrence of `:`, as a list of environment
/// paths is split into its entries.
pub fn split_path_list(path_list: &str) -> (r: Vec<String>)
    ensures
        r.deep_view() == split_at_char(path_list@, ':'),
{
    let n = path_list.unicode_len();
    let mut parts: Vec<String> = Vec::new();
    let mut start: usize = 0;
    let mut i: usize = 0;
    proof {
        assert(path_list@.subrange(0, n as int) =~= path_list@);
    }
    while i < n
        invariant
            start <= i <= n,
            n == path_list@.len(),
            forall|j: int| start <= j < i ==> path_list@[j] != ':',
            split_at_char(path_list@, ':') == parts.deep_view() + split_at_char(
                path_list@.subrange(start as int, n as int),
                ':',
            ),
        decreases n - i,
    {
        if path_list.get_char(i) == ':' {
            let piece = path_list.substring_char(start, i).to_owned();
            proof {
                let t = path_list@.subrange(start as int, n as int);
                lemma_split_at_char_head(t, ':', i - start as int);
                assert(t.subrange(0, i - start as int) =~= path_list@.subrange(
                    start as int,
                    i as int,
                ));
                assert(t.subrange(i - start as int + 1, t.len() as int) =~= path_list@.subrange(
                    i + 1 as int,
                    n as int,
                ));
            }
            let ghost old_parts = parts.deep_view();
            parts.push(piece);
            proof {
                assert(parts.deep_view() =~= old_parts + seq![path_list@.subrange(
                    start as int,
                    i as int,
                )]);
            }
            start = i + 1;
        }
        i += 1;
    }
    let piece = path_list.substring_char(start, n).to_owned();
    proof {
        let t = path_list@.subrange(start as int, n as int);
        lemma_split_at_char_head(t, ':', t.len() as int);
    }
    let ghost old_parts = parts.deep_view();
    parts.push(piece);
    proof {
        assert(parts.deep_view() =~= old_parts + seq![path_list@.subrange(
            start as int,
            n as int,
        )]);
    }
    parts
}

/// A path that begins with `dir` names a file inside it (or `dir` itself).
pub proof fn lemma_join_path_prefix(dir: Seq<char>, name: Seq<char>)
    ensures
        dir.is_prefix_of(join_path(dir, name)),
{
}

pub proof fn lemma_prefix_transitive(a: Seq<char>, b: Seq<char>, c: Seq<char>)
    requires
        a.is_prefix_of(b),
        b.is_prefix_of(c),
    ensures
        a.is_prefix_of(c),
{
    assert(a =~= c.subrange(0, a.len() as int));
}

} // verus!
