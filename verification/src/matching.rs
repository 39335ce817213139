//! Deciding whether a file name answers a request for a font: the name is
//! split into stem and extension at its last dot, the extension must be one
//! of the recognized font file extensions, and the stem must equal the
//! requested name or the requested name with one of the recognized style
//! suffixes appended, always ignoring ASCII case.

use vstd::prelude::*;

use crate::text::eq_ignore_case;
use crate::text::lower_code;
use crate::text::str_eq_ignore_case;

verus! {

/// Index of the dot that separates a file name from its extension: the last
/// dot, except that a dot in first position (a hidden file) begins no
/// extension.  `-1` when the name has no extension.
pub open spec fn last_dot(name: Seq<char>) -> int
    decreases name.len(),
{
    if name.len() <= 1 {
        -1
    } else if name[name.len() - 1] == '.' {
        name.len() - 1
    } else {
        last_dot(name.drop_last())
    }
}

/// The file name without its extension (the whole name when it has none).
pub open spec fn file_stem(name: Seq<char>) -> Seq<char> {
    if last_dot(name) >= 1 {
        name.subrange(0, last_dot(name))
    } else {
        name
    }
}

/// The extension of the file name, without the dot, if it has one.
pub open spec fn file_ext(name: Seq<char>) -> Option<Seq<char>> {
    if last_dot(name) >= 1 {
        Some(name.subrange(last_dot(name) + 1, name.len() as int))
    } else {
        None
    }
}

/// The extensions under which a file is taken for a font file.
pub open spec fn recognized_ext(ext: Seq<char>) -> bool {
    ||| eq_ignore_case(ext, "ttf"@)
    ||| eq_ignore_case(ext, "ttc"@)
    ||| eq_ignore_case(ext, "otf"@)
}

/// The stem answers the request: it is the requested name itself, or the
/// requested name with one of the two recognized style suffixes.
pub open spec fn stem_matches(stem: Seq<char>, font: Seq<char>) -> bool {
    ||| eq_ignore_case(stem, font)
    ||| eq_ignore_case(stem, font + "-Light"@)
    ||| eq_ignore_case(stem, font + "-Medium"@)
}

/// A file of this name answers a request for the font: it has a recognized
/// extension and a matching stem.
pub open spec fn name_matches(name: Seq<char>, font: Seq<char>) -> bool {
    match file_ext(name) {
        Some(e) => recognized_ext(e) && stem_matches(file_stem(name), font),
        None => false,
    }
}

proof fn lemma_last_dot_bounds(name: Seq<char>)
    ensures
        -1 <= last_dot(name) < name.len(),
        last_dot(name) != 0,
    decreases name.len(),
{
    if name.len() > 1 && name[name.len() - 1] != '.' {
        lemma_last_dot_bounds(name.drop_last());
    }
}

proof fn lemma_last_dot_at(name: Seq<char>, d: int)
    requires
        1 <= d < name.len(),
        name[d] == '.',
        forall|j: int| d < j < name.len() ==> name[j] != '.',
    ensures
        last_dot(name) == d,
    decreases name.len(),
{
    if d < name.len() - 1 {
        lemma_last_dot_at(name.drop_last(), d);
    }
}

proof fn lemma_last_dot_none(name: Seq<char>)
    requires
        forall|j: int| 1 <= j < name.len() ==> name[j] != '.',
    ensures
        last_dot(name) == -1,
    decreases name.len(),
{
    if name.len() > 1 {
        lemma_last_dot_none(name.drop_last());
    }
}

proof fn lemma_eq_ci_sym(a: Seq<char>, b: Seq<char>)
    requires
        eq_ignore_case(a, b),
    ensures
        eq_ignore_case(b, a),
{
}

proof fn lemma_eq_ci_trans(a: Seq<char>, b: Seq<char>, c: Seq<char>)
    requires
        eq_ignore_case(a, b),
        eq_ignore_case(b, c),
    ensures
        eq_ignore_case(a, c),
{
}

proof fn lemma_eq_ci_drop_last(a: Seq<char>, b: Seq<char>)
    requires
        eq_ignore_case(a, b),
        a.len() > 0,
    ensures
        eq_ignore_case(a.drop_last(), b.drop_last()),
{
}

proof fn lemma_eq_ci_subrange(a: Seq<char>, b: Seq<char>, lo: int, hi: int)
    requires
        eq_ignore_case(a, b),
        0 <= lo <= hi <= a.len(),
    ensures
        eq_ignore_case(a.subrange(lo, hi), b.subrange(lo, hi)),
{
}

proof fn lemma_eq_ci_concat(a: Seq<char>, b: Seq<char>, s: Seq<char>)
    requires
        eq_ignore_case(a, b),
    ensures
        eq_ignore_case(a + s, b + s),
{
    assert forall|i: int| 0 <= i < (a + s).len() implies lower_code((a + s)[i]) == lower_code(
        (b + s)[i],
    ) by {
        if i < a.len() {
            assert((a + s)[i] == a[i]);
            assert((b + s)[i] == b[i]);
        } else {
            assert((a + s)[i] == s[i - a.len()]);
            assert((b + s)[i] == s[i - b.len()]);
        }
    }
}

/// Characters that agree up to ASCII case are dots together.
proof fn lemma_eq_ci_dot(x: char, y: char)
    requires
        lower_code(x) == lower_code(y),
    ensures
        (x == '.') == (y == '.'),
{
}

proof fn lemma_eq_ci_last_dot(a: Seq<char>, b: Seq<char>)
    requires
        eq_ignore_case(a, b),
    ensures
        last_dot(a) == last_dot(b),
    decreases a.len(),
{
    if a.len() > 1 {
        lemma_eq_ci_dot(a[a.len() - 1], b[b.len() - 1]);
        if a[a.len() - 1] != '.' {
            lemma_eq_ci_drop_last(a, b);
            lemma_eq_ci_last_dot(a.drop_last(), b.drop_last());
        }
    }
}

proof fn lemma_stem_matches_ci(s1: Seq<char>, s2: Seq<char>, f1: Seq<char>, f2: Seq<char>)
    requires
        eq_ignore_case(s1, s2),
        eq_ignore_case(f1, f2),
        stem_matches(s1, f1),
    ensures
        stem_matches(s2, f2),
{
    lemma_eq_ci_sym(s1, s2);
    if eq_ignore_case(s1, f1) {
        lemma_eq_ci_trans(s2, s1, f1);
        lemma_eq_ci_trans(s2, f1, f2);
    } else if eq_ignore_case(s1, f1 + "-Light"@) {
        lemma_eq_ci_concat(f1, f2, "-Light"@);
        lemma_eq_ci_trans(s2, s1, f1 + "-Light"@);
        lemma_eq_ci_trans(s2, f1 + "-Light"@, f2 + "-Light"@);
    } else {
        lemma_eq_ci_concat(f1, f2, "-Medium"@);
        lemma_eq_ci_trans(s2, s1, f1 + "-Medium"@);
        lemma_eq_ci_trans(s2, f1 + "-Medium"@, f2 + "-Medium"@);
    }
}

proof fn lemma_recognized_ext_ci(e1: Seq<char>, e2: Seq<char>)
    requires
        eq_ignore_case(e1, e2),
        recognized_ext(e1),
    ensures
        recognized_ext(e2),
{
    lemma_eq_ci_sym(e1, e2);
    if eq_ignore_case(e1, "ttf"@) {
        lemma_eq_ci_trans(e2, e1, "ttf"@);
    } else if eq_ignore_case(e1, "ttc"@) {
        lemma_eq_ci_trans(e2, e1, "ttc"@);
    } else {
        lemma_eq_ci_trans(e2, e1, "otf"@);
    }
}

proof fn lemma_name_matches_ci_one_way(n1: Seq<char>, n2: Seq<char>, f1: Seq<char>, f2: Seq<char>)
    requires
        eq_ignore_case(n1, n2),
        eq_ignore_case(f1, f2),
        name_matches(n1, f1),
    ensures
        name_matches(n2, f2),
{
    lemma_eq_ci_last_dot(n1, n2);
    lemma_last_dot_bounds(n1);
    assert(file_ext(n1) is Some);
    let d = last_dot(n1);
    assert(1 <= d < n1.len());
    lemma_eq_ci_subrange(n1, n2, 0, d);
    lemma_eq_ci_subrange(n1, n2, d + 1, n1.len() as int);
    lemma_recognized_ext_ci(
        n1.subrange(d + 1, n1.len() as int),
        n2.subrange(d + 1, n2.len() as int),
    );
    lemma_stem_matches_ci(n1.subrange(0, d), n2.subrange(0, d), f1, f2);
}

/// Matching is insensitive to ASCII case on both sides: a file name and a
/// requested font name may each change case freely without changing
/// whether the one answers the other.
pub proof fn lemma_name_matches_case_insensitive(
    n1: Seq<char>,
    n2: Seq<char>,
    f1: Seq<char>,
    f2: Seq<char>,
)
    requires
        eq_ignore_case(n1, n2),
        eq_ignore_case(f1, f2),
    ensures
        name_matches(n1, f1) == name_matches(n2, f2),
{
    if name_matches(n1, f1) {
        lemma_name_matches_ci_one_way(n1, n2, f1, f2);
    }
    if name_matches(n2, f2) {
        lemma_eq_ci_sym(n1, n2);
        lemma_eq_ci_sym(f1, f2);
        lemma_name_matches_ci_one_way(n2, n1, f2, f1);
    }
}

/// Decides whether the file called `file_name` answers a request for
/// `font_name`.
pub fn font_file_name_matches(file_name: &str, font_name: &str) -> (r: bool)
    ensures
        r == name_matches(file_name@, font_name@),
{
    let n = file_name.unicode_len();
    let mut dot: usize = 0;
    if n >= 2 {
        let mut i: usize = 1;
        while i < n
            invariant
                1 <= i <= n,
                n == file_name@.len(),
                dot == 0 ==> forall|j: int| 1 <= j < i ==> file_name@[j] != '.',
                dot != 0 ==> 1 <= dot < i && file_name@[dot as int] == '.' && forall|j: int|
                    dot < j < i ==> file_name@[j] != '.',
            decreases n - i,
        {
            if file_name.get_char(i) == '.' {
                dot = i;
            }
            i += 1;
        }
    }
    if dot == 0 {
        proof {
            lemma_last_dot_none(file_name@);
        }
        return false;
    }
    proof {
        lemma_last_dot_at(file_name@, dot as int);
    }
    let stem = file_name.substring_char(0, dot);
    let ext = file_name.substring_char(dot + 1, n);
    if !(str_eq_ignore_case(ext, "ttf") || str_eq_ignore_case(ext, "ttc") || str_eq_ignore_case(
        ext,
        "otf",
    )) {
        return false;
    }
    if str_eq_ignore_case(stem, font_name) {
        return true;
    }
    let mut light = font_name.to_owned();
    light.append("-Light");
    if str_eq_ignore_case(stem, light.as_str()) {
        return true;
    }
    let mut medium = font_name.to_owned();
    medium.append("-Medium");
    str_eq_ignore_case(stem, medium.as_str())
}

} // verus!
