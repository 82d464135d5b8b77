//! Package paths (`com/example/app`) and the diagram namespaces derived from them.
//!
//! The default namespace is the empty name: classes in it are drawn without a
//! surrounding namespace block.

use vstd::prelude::*;
use vstd::string::*;
use crate::text::{
    find_char_from, find_from, has_prefix, lemma_find_from, replace_char, replace_char_in,
    same_text, starts_with_text, trim_leading,
};

verus! {

/// Index of the last `c` in `s`, or -1 when `s` holds none.
pub open spec fn last_index_of(s: Seq<char>, c: char) -> int
    decreases s.len(),
{
    if s.len() == 0 {
        -1
    } else if s.last() == c {
        s.len() - 1
    } else {
        last_index_of(s.drop_last(), c)
    }
}

pub proof fn lemma_last_index_of(s: Seq<char>, c: char)
    ensures
        -1 <= last_index_of(s, c) < s.len(),
        last_index_of(s, c) >= 0 ==> s[last_index_of(s, c)] == c,
        forall|j: int| last_index_of(s, c) < j < s.len() ==> s[j] != c,
    decreases s.len(),
{
    if s.len() > 0 && s.last() != c {
        lemma_last_index_of(s.drop_last(), c);
        assert forall|j: int| last_index_of(s, c) < j < s.len() implies s[j] != c by {
            if j < s.len() - 1 {
                assert(s.drop_last()[j] == s[j]);
            }
        }
    }
}

/// The package of a slash-separated class name: all before its last `/`,
/// or empty (the default package) when there is none.
pub open spec fn package_of(full_class_name: Seq<char>) -> Seq<char> {
    let k = last_index_of(full_class_name, '/');
    if k >= 0 {
        full_class_name.subrange(0, k)
    } else {
        Seq::empty()
    }
}

/// The package of a class name: `"com/example/MyClass"` gives `"com/example"`.
pub fn get_package_name(full_class_name: &str) -> (r: &str)
    ensures
        r@ == package_of(full_class_name@),
{
    let n = full_class_name.unicode_len();
    let mut i = n;
    assert(full_class_name@.subrange(0, n as int) =~= full_class_name@);
    while i > 0 && full_class_name.get_char(i - 1) != '/'
        invariant
            i <= n,
            n == full_class_name@.len(),
            last_index_of(full_class_name@, '/') == last_index_of(
                full_class_name@.subrange(0, i as int),
                '/',
            ),
        decreases i,
    {
        assert(full_class_name@.subrange(0, i as int).drop_last() =~= full_class_name@.subrange(
            0,
            i - 1,
        ));
        i -= 1;
    }
    if i == 0 {
        assert(full_class_name@.subrange(0, 0) =~= Seq::<char>::empty());
        full_class_name.substring_char(0, 0)
    } else {
        assert(full_class_name@.subrange(0, i as int).last() == '/');
        full_class_name.substring_char(0, i - 1)
    }
}

/// Whether every package in `ps` agrees with `first` on its first `e`
/// characters and has a segment boundary (a `/` or its end) at `e`.
pub open spec fn all_agree(ps: Seq<Seq<char>>, first: Seq<char>, e: int) -> bool {
    forall|i: int|
        0 <= i < ps.len() ==> has_prefix(ps[i], first.subrange(0, e)) && (e == ps[i].len()
            || ps[i][e] == '/')
}

/// Walks the segments of `first` from `pos`: the end of the last segment up to
/// which all of `ps` agree (`acc` when the segment at `pos` already differs).
pub open spec fn common_end(ps: Seq<Seq<char>>, first: Seq<char>, pos: int, acc: int) -> int
    decreases first.len() - pos,
{
    if pos < 0 || pos > first.len() || find_from(first, pos, '/') < pos {
        acc
    } else {
        let e = find_from(first, pos, '/');
        if !all_agree(ps, first, e) {
            acc
        } else if e < first.len() {
            common_end(ps, first, e + 1, e)
        } else {
            e
        }
    }
}

/// The longest run of leading path segments on which all packages agree,
/// joined by `/`; empty when there are no packages.
pub open spec fn common_prefix(ps: Seq<Seq<char>>) -> Seq<char> {
    if ps.len() == 0 {
        Seq::empty()
    } else {
        ps[0].subrange(0, common_end(ps, ps[0], 0, 0))
    }
}

/// Whether all of `packages` agree with `first` up to a boundary at `e`.
fn agree_up_to(packages: &[&str], first: &str, e: usize) -> (r: bool)
    requires
        e <= first@.len(),
    ensures
        r == all_agree(packages@.map_values(|p: &str| p@), first@, e as int),
{
    let ghost ps = packages@.map_values(|p: &str| p@);
    let prefix = first.substring_char(0, e);
    let mut i: usize = 0;
    while i < packages.len()
        invariant
            i <= packages@.len(),
            e <= first@.len(),
            ps == packages@.map_values(|p: &str| p@),
            prefix@ == first@.subrange(0, e as int),
            forall|j: int|
                0 <= j < i ==> has_prefix(ps[j], first@.subrange(0, e as int)) && (e == ps[j].len()
                    || ps[j][e as int] == '/'),
        decreases packages@.len() - i,
    {
        let p = packages[i];
        assert(ps[i as int] == p@);
        if !starts_with_text(p, prefix) {
            return false;
        }
        if p.unicode_len() != e && p.get_char(e) != '/' {
            return false;
        }
        i += 1;
    }
    true
}

/// The common base package of `packages`: the longest run of leading `/`
/// segments shared by all of them (`["com/a/X", "com/b"]` gives `"com"`).
pub fn find_common_base_package(packages: &[&str]) -> (r: String)
    ensures
        r@ == common_prefix(packages@.map_values(|p: &str| p@)),
{
    let ghost ps = packages@.map_values(|p: &str| p@);
    if packages.len() == 0 {
        return String::new();
    }
    let first = packages[0];
    assert(ps[0] == first@);
    let n = first.unicode_len();
    let mut pos: usize = 0;
    let mut acc: usize = 0;
    let mut done = false;
    while !done
        invariant
            n == first@.len(),
            ps == packages@.map_values(|p: &str| p@),
            ps.len() > 0,
            ps[0] == first@,
            acc <= n,
            pos <= n,
            !done ==> common_end(ps, first@, 0, 0) == common_end(ps, first@, pos as int, acc as int),
            done ==> common_end(ps, first@, 0, 0) == acc,
        decreases n + 2 - pos - (if done { 1int } else { 0int }),
    {
        let e = find_char_from(first, pos, '/');
        proof {
            lemma_find_from(first@, pos as int, '/');
        }
        if !agree_up_to(packages, first, e) {
            done = true;
        } else if e < n {
            acc = e;
            pos = e + 1;
        } else {
            acc = e;
            done = true;
        }
    }
    String::from_str(first.substring_char(0, acc))
}

/// The namespace of package `full` relative to base package `base`, with `.`
/// between its segments: the part of `full` past `base` and a `/`; the
/// default (empty) namespace when nothing is left; all of `full` when the
/// base is empty or is no leading segment run of `full`.
pub open spec fn relative_namespace(base: Seq<char>, full: Seq<char>) -> Seq<char> {
    if base.len() == 0 {
        replace_char(full, '/', '.')
    } else if full == base {
        Seq::empty()
    } else if has_prefix(full, base) && full.len() > base.len() && full[base.len() as int] == '/' {
        replace_char(trim_leading(full.subrange(base.len() as int, full.len() as int), '/'), '/', '.')
    } else {
        replace_char(full, '/', '.')
    }
}

/// The namespace name for package `full` under the common base package `base`.
pub fn get_relative_namespace(base: &str, full: &str) -> (r: String)
    ensures
        r@ == relative_namespace(base@, full@),
{
    let b = base.unicode_len();
    let n = full.unicode_len();
    if b == 0 {
        return replace_char_in(full, '/', '.');
    }
    if same_text(full, base) {
        return String::new();
    }
    if starts_with_text(full, base) && n > b && full.get_char(b) == '/' {
        let mut i = b;
        while i < n && full.get_char(i) == '/'
            invariant
                b <= i <= n,
                n == full@.len(),
                trim_leading(full@.subrange(b as int, n as int), '/') == trim_leading(
                    full@.subrange(i as int, n as int),
                    '/',
                ),
            decreases n - i,
        {
            assert(full@.subrange(i as int, n as int).drop_first() =~= full@.subrange(
                i + 1,
                n as int,
            ));
            i += 1;
        }
        let rest = full.substring_char(i, n);
        assert(trim_leading(rest@, '/') == rest@);
        replace_char_in(rest, '/', '.')
    } else {
        replace_char_in(full, '/', '.')
    }
}

} // verus!
