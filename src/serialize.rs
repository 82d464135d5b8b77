//! Rendering a diagram document as class-diagram text.

use vstd::prelude::*;
use vstd::string::*;
use crate::diagram::{
    Class, ClassKind, Diagram, Member, MemberView, Method, Namespace, Parameter,
    Relation, RelationKind, RelationView, Visibility, members_view, opt_text, parameter_view,
    relations_view,
};
use crate::diagram::{fence_at, front_matter_split, lemma_first_fence};
use crate::text::{has_prefix, push_char, starts_with_text};

verus! {

/// The glyph of a visibility.
pub open spec fn visibility_text(v: Visibility) -> Seq<char> {
    match v {
        Visibility::Public => "+"@,
        Visibility::Private => "-"@,
        Visibility::Protected => "#"@,
        Visibility::Package => "~"@,
        Visibility::Unspecified => Seq::empty(),
    }
}

fn visibility_symbol(vis: Visibility) -> (r: &'static str)
    ensures
        r@ == visibility_text(vis),
{
    proof {
        reveal_strlit("");
    }
    match vis {
        Visibility::Public => "+",
        Visibility::Private => "-",
        Visibility::Protected => "#",
        Visibility::Package => "~",
        Visibility::Unspecified => "",
    }
}

/// `s` with the generic brackets `<` and `>` written as `~`.
pub open spec fn escaped(s: Seq<char>) -> Seq<char> {
    Seq::new(s.len(), |i: int| if s[i] == '<' || s[i] == '>' { '~' } else { s[i] })
}

/// Appends `s` to `out` with its generic brackets escaped.
fn push_escaped(out: &mut String, s: &str)
    ensures
        final(out)@ == old(out)@ + escaped(s@),
{
    let n = s.unicode_len();
    let mut i: usize = 0;
    while i < n
        invariant
            i <= n,
            n == s@.len(),
            out@ == old(out)@ + escaped(s@.subrange(0, i as int)),
        decreases n - i,
    {
        let c = s.get_char(i);
        if c == '<' || c == '>' {
            push_char(out, '~');
        } else {
            push_char(out, c);
        }
        assert(escaped(s@.subrange(0, i + 1)) =~= escaped(s@.subrange(0, i as int)).push(
            if c == '<' || c == '>' { '~' } else { c },
        ));
        i += 1;
    }
    assert(s@.subrange(0, n as int) =~= s@);
}

/// Escapes the generic brackets of a type name.
pub fn escape_generics(s: &str) -> (r: String)
    ensures
        r@ == escaped(s@),
{
    let mut r = String::new();
    push_escaped(&mut r, s);
    r
}

/// Whether a parameter name is positional (`arg` followed by digits only),
/// and so left out of the text.
pub open spec fn is_positional(name: Seq<char>) -> bool {
    has_prefix(name, "arg"@) && forall|i: int|
        "arg"@.len() <= i < name.len() ==> '0' <= #[trigger] name[i] <= '9'
}

fn is_positional_name(name: &str) -> (r: bool)
    ensures
        r == is_positional(name@),
{
    let prefix = "arg";
    if !starts_with_text(name, prefix) {
        return false;
    }
    let n = name.unicode_len();
    let mut i = prefix.unicode_len();
    while i < n
        invariant
            prefix@ == "arg"@,
            prefix@.len() <= i <= n,
            n == name@.len(),
            forall|k: int| prefix@.len() <= k < i ==> '0' <= #[trigger] name@[k] <= '9',
        decreases n - i,
    {
        let c = name.get_char(i);
        if !('0' <= c && c <= '9') {
            return false;
        }
        i += 1;
    }
    true
}

/// The text of one parameter: its name (unless positional), then its type.
pub open spec fn parameter_text(p: (Seq<char>, Option<Seq<char>>)) -> Seq<char> {
    (if is_positional(p.0) {
        Seq::empty()
    } else {
        p.0 + if p.1.is_some() {
            ": "@
        } else {
            Seq::empty()
        }
    }) + match p.1 {
        Some(t) => escaped(t),
        None => Seq::empty(),
    }
}

/// The text of a parameter list, entries separated by `, `.
pub open spec fn parameters_text(ps: Seq<(Seq<char>, Option<Seq<char>>)>) -> Seq<char>
    decreases ps.len(),
{
    if ps.len() == 0 {
        Seq::empty()
    } else {
        parameters_text(ps.drop_last()) + (if ps.len() > 1 {
            ", "@
        } else {
            Seq::empty()
        }) + parameter_text(ps.last())
    }
}

/// The text of a field line: visibility glyph, name, `: ` and type when it
/// has one, `$` when static, newline.
pub open spec fn attribute_text(
    visibility: Visibility,
    name: Seq<char>,
    data_type: Option<Seq<char>>,
    is_static: bool,
) -> Seq<char> {
    visibility_text(visibility) + name + match data_type {
        Some(t) => ": "@ + escaped(t),
        None => Seq::empty(),
    } + if is_static {
        seq!['$']
    } else {
        Seq::empty()
    } + seq!['\n']
}

/// The text of a method line: visibility glyph, name, parameters in
/// parentheses, return type after a space when it has one, `*` when
/// abstract, `$` when static, newline.
pub open spec fn method_text(
    visibility: Visibility,
    name: Seq<char>,
    parameters: Seq<(Seq<char>, Option<Seq<char>>)>,
    return_type: Option<Seq<char>>,
    is_static: bool,
    is_abstract: bool,
) -> Seq<char> {
    visibility_text(visibility) + name + seq!['('] + parameters_text(parameters) + seq![')']
        + match return_type {
        Some(t) => seq![' '] + escaped(t),
        None => Seq::empty(),
    } + (if is_abstract {
        seq!['*']
    } else {
        Seq::empty()
    }) + (if is_static {
        seq!['$']
    } else {
        Seq::empty()
    }) + seq!['\n']
}

/// The text of a member line.
pub open spec fn member_text(m: MemberView) -> Seq<char> {
    match m {
        MemberView::Attribute { visibility, name, data_type, is_static } => attribute_text(
            visibility,
            name,
            data_type,
            is_static,
        ),
        MemberView::Method {
            visibility,
            name,
            parameters,
            return_type,
            is_static,
            is_abstract,
        } => method_text(visibility, name, parameters, return_type, is_static, is_abstract),
    }
}

/// Appends the text of `p` to `out`.
fn write_parameter(out: &mut String, p: &Parameter)
    ensures
        final(out)@ == old(out)@ + parameter_text(parameter_view(*p)),
{
    let ghost start = out@;
    if !is_positional_name(p.name.as_str()) {
        out.append(p.name.as_str());
        if p.data_type.is_some() {
            out.append(": ");
        }
    }
    let ghost mid = out@;
    if let Some(t) = &p.data_type {
        push_escaped(out, t.as_str());
    }
    assert(out@ =~= start + parameter_text(parameter_view(*p)));
}

/// Appends the text of a field line to `out`.
fn write_attribute(out: &mut String, attr: &crate::diagram::Attribute)
    ensures
        final(out)@ == old(out)@ + attribute_text(
            attr.visibility,
            attr.name@,
            opt_text(attr.data_type),
            attr.is_static,
        ),
{
    let ghost start = out@;
    out.append(visibility_symbol(attr.visibility));
    out.append(attr.name.as_str());
    let ghost head = out@;
    if let Some(t) = &attr.data_type {
        out.append(": ");
        push_escaped(out, t.as_str());
    }
    let ghost typed = out@;
    assert(typed =~= head + match opt_text(attr.data_type) {
        Some(t) => ": "@ + escaped(t),
        None => Seq::empty(),
    });
    if attr.is_static {
        push_char(out, '$');
    }
    push_char(out, '\n');
    assert(out@ =~= start + attribute_text(
        attr.visibility,
        attr.name@,
        opt_text(attr.data_type),
        attr.is_static,
    ));
}

/// Appends the text of a parameter list to `out`.
fn write_parameters(out: &mut String, parameters: &Vec<Parameter>)
    ensures
        final(out)@ == old(out)@ + parameters_text(
            parameters@.map_values(|p: Parameter| parameter_view(p)),
        ),
{
    let ghost ps = parameters@.map_values(|p: Parameter| parameter_view(p));
    let ghost before = out@;
    let mut i: usize = 0;
    while i < parameters.len()
        invariant
            i <= parameters@.len(),
            ps == parameters@.map_values(|p: Parameter| parameter_view(p)),
            before == old(out)@,
            out@ == before + parameters_text(ps.take(i as int)),
        decreases parameters@.len() - i,
    {
        if i > 0 {
            out.append(", ");
        }
        write_parameter(out, &parameters[i]);
        assert(ps.take(i + 1).drop_last() =~= ps.take(i as int));
        assert(ps.take(i + 1).last() == parameter_view(parameters@[i as int]));
        assert(out@ =~= before + parameters_text(ps.take(i + 1)));
        i += 1;
    }
    assert(ps.take(i as int) =~= ps);
}

/// Appends the text of a method line to `out`.
fn write_method(out: &mut String, method: &Method)
    ensures
        final(out)@ == old(out)@ + method_text(
            method.visibility,
            method.name@,
            method.parameters@.map_values(|p: Parameter| parameter_view(p)),
            opt_text(method.return_type),
            method.is_static,
            method.is_abstract,
        ),
{
    let ghost start = out@;
    out.append(visibility_symbol(method.visibility));
    out.append(method.name.as_str());
    push_char(out, '(');
    write_parameters(out, &method.parameters);
    push_char(out, ')');
    let ghost head = out@;
    if let Some(t) = &method.return_type {
        push_char(out, ' ');
        push_escaped(out, t.as_str());
    }
    let ghost typed = out@;
    assert(typed =~= head + match opt_text(method.return_type) {
        Some(t) => seq![' '] + escaped(t),
        None => Seq::empty(),
    });
    if method.is_abstract {
        push_char(out, '*');
    }
    if method.is_static {
        push_char(out, '$');
    }
    push_char(out, '\n');
    assert(out@ =~= start + method_text(
        method.visibility,
        method.name@,
        method.parameters@.map_values(|p: Parameter| parameter_view(p)),
        opt_text(method.return_type),
        method.is_static,
        method.is_abstract,
    ));
}

/// Appends the text of a member line to `out`.
fn write_member(out: &mut String, member: &Member)
    ensures
        final(out)@ == old(out)@ + member_text(member@),
{
    match member {
        Member::Attribute(attr) => write_attribute(out, attr),
        Member::Method(method) => write_method(out, method),
    }
}

/// The annotation line of a class kind (none for a plain class).
pub open spec fn kind_text(k: ClassKind) -> Seq<char> {
    match k {
        ClassKind::Plain => Seq::empty(),
        ClassKind::Interface => "<<interface>>\n"@,
        ClassKind::Enumeration => "<<enumeration>>\n"@,
        ClassKind::Abstract => "<<abstract>>\n"@,
    }
}

/// The text of a list of member lines.
pub open spec fn members_text(ms: Seq<MemberView>) -> Seq<char>
    decreases ms.len(),
{
    if ms.len() == 0 {
        Seq::empty()
    } else {
        members_text(ms.drop_last()) + member_text(ms.last())
    }
}

/// The text of a class block: header, kind annotation, members, closing brace.
pub open spec fn class_text(name: Seq<char>, kind: ClassKind, members: Seq<MemberView>) -> Seq<char> {
    "class "@ + name + " {\n"@ + kind_text(kind) + members_text(members) + "}\n"@
}

/// Appends the text of a class block to `out`.
fn write_class(out: &mut String, class: &Class)
    ensures
        final(out)@ == old(out)@ + class_text(class.name@, class.kind, members_view(class.members@)),
{
    let ghost start = out@;
    out.append("class ");
    out.append(class.name.as_str());
    out.append(" {\n");
    match class.kind {
        ClassKind::Plain => {},
        ClassKind::Interface => out.append("<<interface>>\n"),
        ClassKind::Enumeration => out.append("<<enumeration>>\n"),
        ClassKind::Abstract => out.append("<<abstract>>\n"),
    }
    let ghost ms = members_view(class.members@);
    let ghost before = out@;
    assert(before =~= start + "class "@ + class.name@ + " {\n"@ + kind_text(class.kind));
    let mut i: usize = 0;
    while i < class.members.len()
        invariant
            i <= class.members@.len(),
            ms == members_view(class.members@),
            out@ == before + members_text(ms.take(i as int)),
        decreases class.members@.len() - i,
    {
        write_member(out, &class.members[i]);
        assert(ms.take(i + 1).drop_last() =~= ms.take(i as int));
        assert(out@ =~= before + members_text(ms.take(i + 1)));
        i += 1;
    }
    assert(ms.take(i as int) =~= ms);
    out.append("}\n");
    assert(out@ =~= start + class_text(class.name@, class.kind, ms));
}

/// Serializes a single class block.
pub fn serialize_class(class: &Class) -> (r: String)
    ensures
        r@ == class_text(class.name@, class.kind, members_view(class.members@)),
{
    let mut out = String::new();
    write_class(&mut out, class);
    out
}

/// The arrow drawn for a relation kind, tail to head.
pub open spec fn arrow_text(kind: RelationKind) -> Seq<char> {
    match kind {
        RelationKind::Inheritance => "--|>"@,
        RelationKind::Realization => "..|>"@,
        RelationKind::Aggregation => "--o"@,
        RelationKind::Composition => "--*"@,
        RelationKind::Association => "-->"@,
        RelationKind::Dependency => "..>"@,
        RelationKind::Link => "--"@,
        RelationKind::DashedLink => ".."@,
    }
}

fn arrow(kind: RelationKind) -> (r: &'static str)
    ensures
        r@ == arrow_text(kind),
{
    match kind {
        RelationKind::Inheritance => "--|>",
        RelationKind::Realization => "..|>",
        RelationKind::Aggregation => "--o",
        RelationKind::Composition => "--*",
        RelationKind::Association => "-->",
        RelationKind::Dependency => "..>",
        RelationKind::Link => "--",
        RelationKind::DashedLink => "..",
    }
}

/// Different relation kinds are drawn with different arrows.
pub proof fn lemma_arrows_distinct(a: RelationKind, b: RelationKind)
    requires
        a != b,
    ensures
        arrow_text(a) != arrow_text(b),
{
    reveal_strlit("--|>");
    reveal_strlit("..|>");
    reveal_strlit("--o");
    reveal_strlit("--*");
    reveal_strlit("-->");
    reveal_strlit("..>");
    reveal_strlit("--");
    reveal_strlit("..");
    let x = arrow_text(a);
    let y = arrow_text(b);
    if x == y {
        assert(x.len() == y.len() && x[0] == y[0] && x[1] == y[1]);
        assert(x.len() > 2 ==> x[2] == y[2] && x[x.len() - 1] == y[y.len() - 1]);
    }
}

/// A cardinality in quotes after a space, or nothing.
pub open spec fn cardinality_text(c: Option<Seq<char>>) -> Seq<char> {
    match c {
        Some(t) => " \""@ + t + "\""@,
        None => Seq::empty(),
    }
}

fn write_cardinality(out: &mut String, c: &Option<String>)
    ensures
        final(out)@ == old(out)@ + cardinality_text(opt_text(*c)),
{
    if let Some(t) = c {
        out.append(" \"");
        out.append(t.as_str());
        out.append("\"");
    }
    assert(out@ =~= old(out)@ + cardinality_text(opt_text(*c)));
}

/// The text of a relation line: tail, its cardinality, the arrow, the head's
/// cardinality, head, then ` : ` and the label when there is one.
pub open spec fn relation_text(r: RelationView) -> Seq<char> {
    r.tail + cardinality_text(r.cardinality_tail) + seq![' '] + arrow_text(r.kind)
        + cardinality_text(r.cardinality_head) + seq![' '] + r.head + match r.label {
        Some(l) => " : "@ + l,
        None => Seq::empty(),
    } + seq!['\n']
}

/// Appends the text of a relation line to `out`.
fn write_relation(out: &mut String, relation: &Relation)
    ensures
        final(out)@ == old(out)@ + relation_text(relation@),
{
    let ghost start = out@;
    out.append(relation.tail.as_str());
    write_cardinality(out, &relation.cardinality_tail);
    push_char(out, ' ');
    out.append(arrow(relation.kind));
    write_cardinality(out, &relation.cardinality_head);
    push_char(out, ' ');
    out.append(relation.head.as_str());
    let ghost head = out@;
    if let Some(l) = &relation.label {
        out.append(" : ");
        out.append(l.as_str());
    }
    assert(out@ =~= head + match opt_text(relation.label) {
        Some(l) => " : "@ + l,
        None => Seq::empty(),
    });
    push_char(out, '\n');
    assert(out@ =~= start + relation_text(relation@));
}

/// Serializes a relation line.
pub fn serialize_relation(relation: &Relation) -> (r: String)
    ensures
        r@ == relation_text(relation@),
{
    let mut out = String::new();
    write_relation(&mut out, relation);
    out
}

/// The text of a class as it stands in a document.
pub open spec fn class_block(c: Class) -> Seq<char> {
    class_text(c.name@, c.kind, members_view(c.members@))
}

/// The class blocks of a list, each after an empty line.
pub open spec fn spaced_classes_text(cs: Seq<Class>) -> Seq<char>
    decreases cs.len(),
{
    if cs.len() == 0 {
        Seq::empty()
    } else {
        spaced_classes_text(cs.drop_last()) + seq!['\n'] + class_block(cs.last())
    }
}

/// The class blocks of a list, one after another.
pub open spec fn classes_text(cs: Seq<Class>) -> Seq<char>
    decreases cs.len(),
{
    if cs.len() == 0 {
        Seq::empty()
    } else {
        classes_text(cs.drop_last()) + class_block(cs.last())
    }
}

/// The classes of the default (unnamed) namespaces, drawn without a block.
pub open spec fn default_text(ns: Seq<Namespace>) -> Seq<char>
    decreases ns.len(),
{
    if ns.len() == 0 {
        Seq::empty()
    } else {
        default_text(ns.drop_last()) + if ns.last().name@.len() == 0 {
            spaced_classes_text(ns.last().classes@)
        } else {
            Seq::empty()
        }
    }
}

/// The named namespaces, each as a block holding its classes.
pub open spec fn named_text(ns: Seq<Namespace>) -> Seq<char>
    decreases ns.len(),
{
    if ns.len() == 0 {
        Seq::empty()
    } else {
        named_text(ns.drop_last()) + if ns.last().name@.len() == 0 {
            Seq::empty()
        } else {
            "\nnamespace "@ + ns.last().name@ + " {\n"@ + classes_text(ns.last().classes@) + "}\n"@
        }
    }
}

/// The relation lines of a list.
pub open spec fn relations_text(rs: Seq<RelationView>) -> Seq<char>
    decreases rs.len(),
{
    if rs.len() == 0 {
        Seq::empty()
    } else {
        relations_text(rs.drop_last()) + relation_text(rs.last())
    }
}

/// The text of a document: its front matter between `---` lines, the
/// `classDiagram` line, the classes of the default namespace, the named
/// namespaces, then the relations.
pub open spec fn diagram_text(d: Diagram) -> Seq<char> {
    (match d.front_matter {
        Some(f) => "---\n"@ + f.text@ + "---\n\n"@,
        None => Seq::empty(),
    }) + "classDiagram\n"@ + default_text(d.namespaces@) + named_text(d.namespaces@)
        + relations_text(relations_view(d.relations@))
}

fn write_classes(out: &mut String, classes: &Vec<Class>, spaced: bool)
    ensures
        final(out)@ == old(out)@ + if spaced {
            spaced_classes_text(classes@)
        } else {
            classes_text(classes@)
        },
{
    let ghost before = out@;
    let mut i: usize = 0;
    while i < classes.len()
        invariant
            i <= classes@.len(),
            before == old(out)@,
            out@ == before + if spaced {
                spaced_classes_text(classes@.take(i as int))
            } else {
                classes_text(classes@.take(i as int))
            },
        decreases classes@.len() - i,
    {
        if spaced {
            push_char(out, '\n');
        }
        write_class(out, &classes[i]);
        assert(classes@.take(i + 1).drop_last() =~= classes@.take(i as int));
        assert(out@ =~= before + if spaced {
            spaced_classes_text(classes@.take(i + 1))
        } else {
            classes_text(classes@.take(i + 1))
        });
        i += 1;
    }
    assert(classes@.take(i as int) =~= classes@);
}

/// Serializes a whole document.
pub fn serialize_diagram(diagram: &Diagram) -> (r: String)
    ensures
        r@ == diagram_text(*diagram),
{
    let mut out = String::new();
    if let Some(f) = &diagram.front_matter {
        out.append("---\n");
        out.append(f.text.as_str());
        out.append("---\n\n");
    }
    out.append("classDiagram\n");
    let ghost ns = diagram.namespaces@;
    let ghost head = out@;
    assert(head =~= (match diagram.front_matter {
        Some(f) => "---\n"@ + f.text@ + "---\n\n"@,
        None => Seq::empty(),
    }) + "classDiagram\n"@);
    let mut i: usize = 0;
    while i < diagram.namespaces.len()
        invariant
            i <= ns.len(),
            ns == diagram.namespaces@,
            out@ == head + default_text(ns.take(i as int)),
        decreases ns.len() - i,
    {
        let namespace = &diagram.namespaces[i];
        if namespace.name.as_str().unicode_len() == 0 {
            write_classes(&mut out, &namespace.classes, true);
        }
        assert(ns.take(i + 1).drop_last() =~= ns.take(i as int));
        i += 1;
    }
    assert(ns.take(i as int) =~= ns);
    let ghost mid = out@;
    let mut j: usize = 0;
    while j < diagram.namespaces.len()
        invariant
            j <= ns.len(),
            ns == diagram.namespaces@,
            out@ == mid + named_text(ns.take(j as int)),
        decreases ns.len() - j,
    {
        let namespace = &diagram.namespaces[j];
        let ghost prev = out@;
        if namespace.name.as_str().unicode_len() != 0 {
            out.append("\nnamespace ");
            out.append(namespace.name.as_str());
            out.append(" {\n");
            write_classes(&mut out, &namespace.classes, false);
            out.append("}\n");
        }
        assert(ns.take(j + 1).drop_last() =~= ns.take(j as int));
        assert(out@ =~= mid + named_text(ns.take(j + 1)));
        j += 1;
    }
    assert(ns.take(j as int) =~= ns);
    let ghost rs = relations_view(diagram.relations@);
    let ghost tail = out@;
    let mut k: usize = 0;
    while k < diagram.relations.len()
        invariant
            k <= diagram.relations@.len(),
            rs == relations_view(diagram.relations@),
            out@ == tail + relations_text(rs.take(k as int)),
        decreases diagram.relations@.len() - k,
    {
        write_relation(&mut out, &diagram.relations[k]);
        assert(rs.take(k + 1).drop_last() =~= rs.take(k as int));
        assert(out@ =~= tail + relations_text(rs.take(k + 1)));
        k += 1;
    }
    assert(rs.take(k as int) =~= rs);
    out
}

proof fn lemma_no_fence_before(t: Seq<char>, b: Seq<char>, q: int)
    requires
        t.len() == 0 || t.last() == '\n',
        forall|p: int| !fence_at(t, p),
        t.len() + 3 <= b.len(),
        b.subrange(0, t.len() as int) == t,
        0 <= q < t.len(),
    ensures
        !fence_at(b, q),
{
    let p = t.len() as int;
    assert(b[p - 1] == t[p - 1]);
    if q + 3 <= p {
        if fence_at(b, q) {
            assert(b[q] == t[q] && b[q + 1] == t[q + 1] && b[q + 2] == t[q + 2]);
            if q > 0 {
                assert(b[q - 1] == t[q - 1]);
            }
            assert(fence_at(t, q));
        }
    } else if q + 2 == p {
        assert(b[q + 1] == t[q + 1]);
    }
}

proof fn lemma_split_fenced(t: Seq<char>, rest: Seq<char>)
    requires
        t.len() == 0 || t.last() == '\n',
        forall|p: int| !fence_at(t, p),
    ensures
        front_matter_split("---\n"@ + t + "---\n\n"@ + rest).is_some(),
        front_matter_split("---\n"@ + t + "---\n\n"@ + rest).unwrap().0 == t,
{
    reveal_strlit("---\n");
    reveal_strlit("---\n\n");
    let open = "---\n"@;
    let s = open + t + "---\n\n"@ + rest;
    assert(s.subrange(0, open.len() as int) =~= open);
    let b = s.subrange(open.len() as int, s.len() as int);
    let p = t.len() as int;
    assert(b.subrange(0, p) =~= t);
    assert(b[p] == '-' && b[p + 1] == '-' && b[p + 2] == '-');
    assert(fence_at(b, p)) by {
        if p > 0 {
            assert(b[p - 1] == t[p - 1]);
        }
    }
    assert forall|q: int| 0 <= q < p implies !fence_at(b, q) by {
        lemma_no_fence_before(t, b, q);
    }
    lemma_first_fence(b, p);
}

/// The front matter of a document comes back unchanged when its text is
/// split again: this holds when the front-matter text is empty or ends with a
/// newline, and has no line that starts with `---`.
pub proof fn lemma_front_matter_round_trip(d: Diagram)
    requires
        d.front_matter.is_some(),
        d.front_matter.unwrap().text@.len() == 0 || d.front_matter.unwrap().text@.last() == '\n',
        forall|p: int| !fence_at(d.front_matter.unwrap().text@, p),
    ensures
        front_matter_split(diagram_text(d)).is_some(),
        front_matter_split(diagram_text(d)).unwrap().0 == d.front_matter.unwrap().text@,
{
    let t = d.front_matter.unwrap().text@;
    let rest = "classDiagram\n"@ + default_text(d.namespaces@) + named_text(d.namespaces@)
        + relations_text(relations_view(d.relations@));
    assert(diagram_text(d) =~= "---\n"@ + t + "---\n\n"@ + rest);
    lemma_split_fenced(t, rest);
}

/// A document whose namespaces all have the default (empty) name is written
/// without any namespace block: its text is the front matter, the
/// `classDiagram` line, its classes unwrapped, and its relations.
pub proof fn lemma_default_namespace_unwrapped(d: Diagram)
    requires
        forall|i: int| 0 <= i < d.namespaces@.len() ==> d.namespaces@[i].name@.len() == 0,
    ensures
        named_text(d.namespaces@) == Seq::<char>::empty(),
        diagram_text(d) == (match d.front_matter {
            Some(f) => "---\n"@ + f.text@ + "---\n\n"@,
            None => Seq::empty(),
        }) + "classDiagram\n"@ + default_text(d.namespaces@) + relations_text(
            relations_view(d.relations@),
        ),
{
    lemma_named_text_empty(d.namespaces@);
    assert(diagram_text(d) =~= (match d.front_matter {
        Some(f) => "---\n"@ + f.text@ + "---\n\n"@,
        None => Seq::empty(),
    }) + "classDiagram\n"@ + default_text(d.namespaces@) + relations_text(
        relations_view(d.relations@),
    ));
}

proof fn lemma_named_text_empty(ns: Seq<Namespace>)
    requires
        forall|i: int| 0 <= i < ns.len() ==> ns[i].name@.len() == 0,
    ensures
        named_text(ns) == Seq::<char>::empty(),
    decreases ns.len(),
{
    if ns.len() > 0 {
        lemma_named_text_empty(ns.drop_last());
        assert(ns.last().name@.len() == 0);
        assert(named_text(ns) =~= named_text(ns.drop_last()));
    }
}

} // verus!
