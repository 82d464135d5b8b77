//! Decoding of JVM type descriptors into display type names.
//!
//! A field descriptor is a run of `[` array markers followed by one base unit:
//! a single primitive code, or `L<path>;` for an object type. A method
//! descriptor is `(<units>)<unit>`.

use vstd::prelude::*;
use vstd::string::*;
use crate::text::{find_char_from, find_from, lemma_find_from, push_char};

verus! {

/// The display name of a one-character primitive code, if it is one.
pub open spec fn primitive_name(c: char) -> Option<Seq<char>> {
    if c == 'B' {
        Some("byte"@)
    } else if c == 'C' {
        Some("char"@)
    } else if c == 'D' {
        Some("double"@)
    } else if c == 'F' {
        Some("float"@)
    } else if c == 'I' {
        Some("int"@)
    } else if c == 'J' {
        Some("long"@)
    } else if c == 'S' {
        Some("short"@)
    } else if c == 'Z' {
        Some("boolean"@)
    } else if c == 'V' {
        Some("void"@)
    } else {
        None
    }
}

/// Number of consecutive `[` markers in `d` starting at `i`.
pub open spec fn bracket_run(d: Seq<char>, i: int) -> nat
    decreases d.len() - i,
{
    if 0 <= i < d.len() && d[i] == '[' {
        1 + bracket_run(d, i + 1)
    } else {
        0
    }
}

/// The part of `p` after its last `/` (all of `p` when it has none).
pub open spec fn last_segment(p: Seq<char>) -> Seq<char>
    decreases p.len(),
{
    if p.len() == 0 {
        p
    } else if p.last() == '/' {
        Seq::empty()
    } else {
        last_segment(p.drop_last()).push(p.last())
    }
}

/// `[]` repeated `n` times.
pub open spec fn array_suffix(n: nat) -> Seq<char>
    decreases n,
{
    if n == 0 {
        Seq::empty()
    } else {
        array_suffix((n - 1) as nat) + "[]"@
    }
}

/// The base unit at index `k` (which holds no `[`): its display name and how
/// many characters it spans. An object unit without its `;` runs to the end.
pub open spec fn base_unit(d: Seq<char>, k: int) -> (Seq<char>, int) {
    if d[k] == 'L' {
        let e = find_from(d, k, ';');
        (last_segment(d.subrange(k + 1, e)), if e < d.len() { e + 1 - k } else { e - k })
    } else {
        match primitive_name(d[k]) {
            Some(n) => (n, 1),
            None => ("Object"@, 1),
        }
    }
}

/// The type unit of `d` that starts at `start`: its display type and the
/// number of characters it spans. Nothing left to read decodes as `void`.
pub open spec fn type_unit(d: Seq<char>, start: int) -> (Seq<char>, int) {
    if start >= d.len() {
        ("void"@, 0)
    } else {
        let depth = bracket_run(d, start);
        let k = start + depth;
        if k >= d.len() {
            ("void"@, depth as int)
        } else {
            let (base, used) = base_unit(d, k);
            (base + array_suffix(depth), depth + used)
        }
    }
}

proof fn lemma_bracket_run(d: Seq<char>, i: int)
    requires
        0 <= i <= d.len(),
    ensures
        i + bracket_run(d, i) <= d.len(),
        forall|j: int| i <= j < i + bracket_run(d, i) ==> d[j] == '[',
        i + bracket_run(d, i) < d.len() ==> d[i + bracket_run(d, i)] != '[',
    decreases d.len() - i,
{
    if i < d.len() && d[i] == '[' {
        lemma_bracket_run(d, i + 1);
    }
}

/// The display type of the field descriptor `descriptor`.
pub open spec fn field_type(descriptor: Seq<char>) -> Seq<char> {
    type_unit(descriptor, 0).0
}

/// Appends the last `/`-separated segment of `s[from..to]` to `out`.
fn push_last_segment(out: &mut String, s: &str, from: usize, to: usize)
    requires
        from <= to <= s@.len(),
    ensures
        final(out)@ == old(out)@ + last_segment(s@.subrange(from as int, to as int)),
{
    let mut start = to;
    while start > from && s.get_char(start - 1) != '/'
        invariant
            from <= start <= to,
            to <= s@.len(),
            last_segment(s@.subrange(from as int, to as int)) == last_segment(
                s@.subrange(from as int, start as int),
            ) + s@.subrange(start as int, to as int),
        decreases start,
    {
        let ghost p = s@.subrange(from as int, start as int);
        let ghost c = s@[start - 1];
        assert(p.drop_last() =~= s@.subrange(from as int, start - 1));
        assert(p.last() == c);
        assert(s@.subrange(start - 1, to as int) =~= seq![c] + s@.subrange(start as int, to as int));
        assert(last_segment(p) == last_segment(p.drop_last()).push(c));
        assert(last_segment(p.drop_last()).push(c) + s@.subrange(start as int, to as int)
            =~= last_segment(p.drop_last()) + s@.subrange(start - 1, to as int));
        start -= 1;
    }
    assert(last_segment(s@.subrange(from as int, start as int)) =~= Seq::empty()) by {
        if start > from {
            assert(s@.subrange(from as int, start as int).last() == '/');
        }
    }
    let mut i = start;
    while i < to
        invariant
            start <= i <= to,
            to <= s@.len(),
            out@ == old(out)@ + s@.subrange(start as int, i as int),
        decreases to - i,
    {
        push_char(out, s.get_char(i));
        assert(s@.subrange(start as int, i + 1) =~= s@.subrange(start as int, i as int).push(
            s@[i as int],
        ));
        i += 1;
    }
    assert(last_segment(s@.subrange(from as int, start as int)) + s@.subrange(
        start as int,
        to as int,
    ) =~= s@.subrange(start as int, to as int));
}

/// Decodes one type unit of `descriptor` starting at `start`; returns its
/// display type and the number of characters it spans.
pub fn parse_type_internal(descriptor: &str, start: usize) -> (r: (String, usize))
    ensures
        r.0@ == type_unit(descriptor@, start as int).0,
        r.1 == type_unit(descriptor@, start as int).1,
{
    let n = descriptor.unicode_len();
    if start >= n {
        return (String::from_str("void"), 0);
    }
    let mut idx = start;
    let mut depth: usize = 0;
    proof {
        lemma_bracket_run(descriptor@, start as int);
    }
    while idx < n && descriptor.get_char(idx) == '['
        invariant
            n == descriptor@.len(),
            start <= idx <= n,
            idx == start + depth,
            depth <= bracket_run(descriptor@, start as int),
            bracket_run(descriptor@, start as int) == depth + bracket_run(descriptor@, idx as int),
        decreases n - idx,
    {
        depth += 1;
        idx += 1;
    }
    assert(bracket_run(descriptor@, idx as int) == 0);
    if idx >= n {
        return (String::from_str("void"), depth);
    }
    let c = descriptor.get_char(idx);
    let mut result = String::new();
    let used: usize;
    if c == 'L' {
        let e = find_char_from(descriptor, idx, ';');
        proof {
            lemma_find_from(descriptor@, idx as int, ';');
        }
        push_last_segment(&mut result, descriptor, idx + 1, e);
        used = if e < n { e + 1 - idx } else { e - idx };
    } else {
        let name = if c == 'B' {
            "byte"
        } else if c == 'C' {
            "char"
        } else if c == 'D' {
            "double"
        } else if c == 'F' {
            "float"
        } else if c == 'I' {
            "int"
        } else if c == 'J' {
            "long"
        } else if c == 'S' {
            "short"
        } else if c == 'Z' {
            "boolean"
        } else if c == 'V' {
            "void"
        } else {
            "Object"
        };
        result.append(name);
        used = 1;
    }
    assert(result@ == base_unit(descriptor@, idx as int).0);
    let mut i: usize = 0;
    while i < depth
        invariant
            i <= depth,
            result@ == base_unit(descriptor@, idx as int).0 + array_suffix(i as nat),
        decreases depth - i,
    {
        result.append("[]");
        assert(base_unit(descriptor@, idx as int).0 + array_suffix((i + 1) as nat) =~= base_unit(
            descriptor@,
            idx as int,
        ).0 + array_suffix(i as nat) + "[]"@);
        i += 1;
    }
    (result, depth + used)
}

/// Decodes a field descriptor into its display type (`"[I"` is `int[]`).
pub fn parse_field_descriptor(descriptor: &str) -> (r: String)
    ensures
        r@ == field_type(descriptor@),
{
    parse_type_internal(descriptor, 0).0
}

/// The display types of the units of `p` read one after another from `i`.
pub open spec fn param_units(p: Seq<char>, i: int) -> Seq<Seq<char>>
    decreases p.len() - i,
{
    let c = type_unit(p, i).1;
    if i < 0 || i >= p.len() || c <= 0 || i + c > p.len() {
        Seq::empty()
    } else {
        seq![type_unit(p, i).0] + param_units(p, i + c)
    }
}

/// The parameter list of a method descriptor: what stands between its `(`
/// and the first `)` (or the end).
pub open spec fn params_part(d: Seq<char>) -> Seq<char> {
    d.subrange(1, find_from(d, 1, ')'))
}

/// The return unit of a method descriptor: what follows the first `)`.
pub open spec fn return_part(d: Seq<char>) -> Seq<char> {
    let e = find_from(d, 1, ')');
    if e < d.len() {
        d.subrange(e + 1, d.len() as int)
    } else {
        Seq::empty()
    }
}

/// The decoded parameter types and return type of a method descriptor; a
/// descriptor without a leading `(` has no parameters and returns `void`.
pub open spec fn method_signature(d: Seq<char>) -> (Seq<Seq<char>>, Seq<char>) {
    if d.len() == 0 || d[0] != '(' {
        (Seq::empty(), "void"@)
    } else {
        (param_units(params_part(d), 0), type_unit(return_part(d), 0).0)
    }
}

proof fn lemma_unit_advances(d: Seq<char>, i: int)
    requires
        0 <= i < d.len(),
    ensures
        type_unit(d, i).1 >= 1,
        i + type_unit(d, i).1 <= d.len(),
{
    lemma_bracket_run(d, i);
    let k = i + bracket_run(d, i);
    if k < d.len() && d[k] == 'L' {
        lemma_find_from(d, k, ';');
    }
}

/// Decodes a method descriptor into its parameter types and return type:
/// `"(ILjava/lang/String;)V"` gives `["int", "String"]` and `void`.
pub fn parse_method_descriptor(descriptor: &str) -> (r: (Vec<String>, String))
    ensures
        r.0.deep_view() == method_signature(descriptor@).0,
        r.1@ == method_signature(descriptor@).1,
{
    let mut params: Vec<String> = Vec::new();
    let n = descriptor.unicode_len();
    if n == 0 || descriptor.get_char(0) != '(' {
        return (params, String::from_str("void"));
    }
    let end_params = find_char_from(descriptor, 1, ')');
    proof {
        lemma_find_from(descriptor@, 1, ')');
    }
    let params_str = descriptor.substring_char(1, end_params);
    let return_str = if end_params < n {
        descriptor.substring_char(end_params + 1, n)
    } else {
        descriptor.substring_char(n, n)
    };
    assert(params_str@ == params_part(descriptor@));
    assert(return_str@ =~= return_part(descriptor@));
    let m = params_str.unicode_len();
    let mut idx: usize = 0;
    while idx < m
        invariant
            m == params_str@.len(),
            idx <= m,
            params.deep_view() + param_units(params_str@, idx as int) == param_units(
                params_str@,
                0,
            ),
        decreases m - idx,
    {
        proof {
            lemma_unit_advances(params_str@, idx as int);
        }
        let (param_type, consumed) = parse_type_internal(params_str, idx);
        let ghost before = params.deep_view();
        params.push(param_type);
        assert(params.deep_view() =~= before.push(param_type@));
        assert(param_units(params_str@, idx as int) == seq![param_type@] + param_units(
            params_str@,
            idx + consumed,
        ));
        assert(before + param_units(params_str@, idx as int) =~= params.deep_view()
            + param_units(params_str@, idx + consumed));
        idx += consumed;
    }
    assert(param_units(params_str@, idx as int) =~= Seq::empty());
    assert(params.deep_view() =~= params.deep_view() + param_units(params_str@, idx as int));
    let (return_type, _) = parse_type_internal(return_str, 0);
    (params, return_type)
}

/// The simple name of the object type that a field descriptor names: only a
/// descriptor that begins with `L` names one (arrays and primitives do not).
pub open spec fn object_type_name(descriptor: Seq<char>) -> Option<Seq<char>> {
    if descriptor.len() > 0 && descriptor[0] == 'L' {
        Some(field_type(descriptor))
    } else {
        None
    }
}

/// The simple name of the object type named by a field descriptor, if any.
pub fn extract_class_name_from_descriptor(descriptor: &str) -> (r: Option<String>)
    ensures
        r.is_some() == object_type_name(descriptor@).is_some(),
        r.is_some() ==> r.unwrap()@ == object_type_name(descriptor@).unwrap(),
{
    if descriptor.unicode_len() > 0 && descriptor.get_char(0) == 'L' {
        Some(parse_field_descriptor(descriptor))
    } else {
        None
    }
}

/// Whether `u` is exactly one well-formed type unit: array markers, then a
/// primitive code, or `L`, a path without `;`, and the closing `;`.
pub open spec fn valid_unit(u: Seq<char>) -> bool {
    let k = bracket_run(u, 0) as int;
    &&& k < u.len()
    &&& {
        ||| (primitive_name(u[k]).is_some() && u.len() == k + 1)
        ||| (u[k] == 'L' && u.len() >= k + 2 && u.last() == ';' && forall|j: int|
            k < j < u.len() - 1 ==> u[j] != ';')
    }
}

proof fn lemma_bracket_shift(a: Seq<char>, b: Seq<char>, i: int)
    requires
        0 <= i,
    ensures
        bracket_run(a + b, a.len() + i) == bracket_run(b, i),
    decreases b.len() - i,
{
    if i < b.len() && b[i] == '[' {
        assert((a + b)[a.len() + i] == b[i]);
        lemma_bracket_shift(a, b, i + 1);
    } else if i < b.len() {
        assert((a + b)[a.len() + i] == b[i]);
    }
}

proof fn lemma_find_shift(a: Seq<char>, b: Seq<char>, i: int, c: char)
    requires
        0 <= i,
    ensures
        i <= b.len() ==> find_from(a + b, a.len() + i, c) == a.len() + find_from(b, i, c),
    decreases b.len() - i,
{
    if i < b.len() {
        assert((a + b)[a.len() + i] == b[i]);
        if b[i] != c {
            lemma_find_shift(a, b, i + 1, c);
        }
    }
}

proof fn lemma_unit_shift(a: Seq<char>, b: Seq<char>, i: int)
    requires
        0 <= i,
    ensures
        type_unit(a + b, a.len() + i) == type_unit(b, i),
{
    if i < b.len() {
        lemma_bracket_shift(a, b, i);
        lemma_bracket_run(b, i);
        let k = i + bracket_run(b, i);
        if k < b.len() {
            assert((a + b)[a.len() + k] == b[k]);
            if b[k] == 'L' {
                lemma_find_shift(a, b, k, ';');
                lemma_find_from(b, k, ';');
                let e = find_from(b, k, ';');
                assert((a + b).subrange(a.len() + k + 1, a.len() + e) =~= b.subrange(k + 1, e));
            }
        }
    }
}

proof fn lemma_param_units_shift(a: Seq<char>, b: Seq<char>, i: int)
    requires
        0 <= i,
    ensures
        param_units(a + b, a.len() + i) == param_units(b, i),
    decreases b.len() - i,
{
    lemma_unit_shift(a, b, i);
    let c = type_unit(b, i).1;
    if i < b.len() && c > 0 && i + c <= b.len() {
        lemma_param_units_shift(a, b, i + c);
    }
}

proof fn lemma_bracket_prefix(u: Seq<char>, rest: Seq<char>, i: int)
    requires
        0 <= i <= u.len(),
        i + bracket_run(u, i) < u.len(),
    ensures
        bracket_run(u + rest, i) == bracket_run(u, i),
    decreases u.len() - i,
{
    assert((u + rest)[i] == u[i]);
    if u[i] == '[' {
        lemma_bracket_prefix(u, rest, i + 1);
    }
}

proof fn lemma_find_prefix(u: Seq<char>, rest: Seq<char>, i: int, c: char)
    requires
        0 <= i <= u.len(),
        find_from(u, i, c) < u.len(),
    ensures
        find_from(u + rest, i, c) == find_from(u, i, c),
    decreases u.len() - i,
{
    assert((u + rest)[i] == u[i]);
    if u[i] != c {
        lemma_find_prefix(u, rest, i + 1, c);
    }
}

/// A well-formed unit is read in full and no further, whatever follows it:
/// decoding `u + rest` from its start gives the display type of `u` and spans
/// exactly `u`.
pub proof fn lemma_unit_spans_exactly(u: Seq<char>, rest: Seq<char>)
    requires
        valid_unit(u),
    ensures
        type_unit(u + rest, 0) == (field_type(u), u.len() as int),
{
    let k = bracket_run(u, 0) as int;
    lemma_bracket_run(u, 0);
    lemma_bracket_prefix(u, rest, 0);
    assert((u + rest)[k] == u[k]);
    if u[k] == 'L' {
        lemma_find_from(u, k, ';');
        let e = find_from(u, k, ';');
        assert(e == u.len() - 1) by {
            if e < u.len() - 1 {
                assert(u[e] == ';');
                assert(e != k);
            } else if e == u.len() {
                assert(u[u.len() - 1] != ';');
            }
        }
        lemma_find_prefix(u, rest, k, ';');
        assert((u + rest).subrange(k + 1, e) =~= u.subrange(k + 1, e));
    }
}

/// Decoding a run of well-formed units one after another from a shared
/// position reads each unit exactly: the decoded list is the display type
/// of each unit, in order, with nothing left over.
pub proof fn lemma_units_read_exactly(us: Seq<Seq<char>>)
    requires
        forall|i: int| 0 <= i < us.len() ==> valid_unit(#[trigger] us[i]),
    ensures
        param_units(us.flatten(), 0) == us.map_values(|u: Seq<char>| field_type(u)),
    decreases us.len(),
{
    if us.len() == 0 {
        assert(us.map_values(|u: Seq<char>| field_type(u)) =~= Seq::empty());
    } else {
        let u = us[0];
        let tail = us.drop_first();
        assert forall|i: int| 0 <= i < tail.len() implies valid_unit(#[trigger] tail[i]) by {
            assert(tail[i] == us[i + 1]);
        }
        lemma_units_read_exactly(tail);
        assert(us.flatten() == u + tail.flatten());
        assert(valid_unit(us[0]));
        lemma_unit_spans_exactly(u, tail.flatten());
        lemma_param_units_shift(u, tail.flatten(), 0);
        assert(us.map_values(|u: Seq<char>| field_type(u)) =~= seq![field_type(u)]
            + tail.map_values(|u: Seq<char>| field_type(u)));
    }
}

/// For a method descriptor `(` units `)` return, whose units are well formed
/// and hold no `)`, the decoded parameter list has one display type per unit,
/// in order: the parameter list is consumed exactly.
pub proof fn lemma_method_params_exact(us: Seq<Seq<char>>, ret: Seq<char>)
    requires
        forall|i: int| 0 <= i < us.len() ==> valid_unit(#[trigger] us[i]),
        forall|j: int| 0 <= j < us.flatten().len() ==> us.flatten()[j] != ')',
    ensures
        method_signature(seq!['('] + us.flatten() + seq![')'] + ret).0 == us.map_values(
            |u: Seq<char>| field_type(u),
        ),
        method_signature(seq!['('] + us.flatten() + seq![')'] + ret).0.len() == us.len(),
{
    let p = us.flatten();
    let d = seq!['('] + p + seq![')'] + ret;
    assert(d[0] == '(');
    lemma_find_from(d, 1, ')');
    assert(d[p.len() as int + 1] == ')');
    assert forall|j: int| 1 <= j < p.len() + 1 implies d[j] != ')' by {
        assert(d[j] == p[j - 1]);
    }
    assert(find_from(d, 1, ')') == p.len() + 1);
    assert(params_part(d) =~= p);
    lemma_units_read_exactly(us);
}

} // verus!
