//! Merging extracted classes and relations into a diagram document.

use vstd::prelude::*;
use vstd::string::*;
use crate::classfile::{
    ACC_ANNOTATION, AttributeInfo, ClassRecord, MemberInfo, PoolEntry, carries_opt,
    class_members, classfile_to_mermaid_class, full_class_name, get_annotation_params,
    get_full_class_name, get_interface_names, get_superclass_name, get_utf8_or, has_annotation,
    interface_names, is_annotation, names_view, opt_str, relationship_params, superclass_name,
    utf8_or,
};
use crate::config::MergedConfig;
use crate::descriptor::{extract_class_name_from_descriptor, object_type_name};
use crate::diagram::{
    Class, ClassKind, Diagram, FrontMatter, MemberView, Namespace, Relation,
    RelationKind, RelationView, SelectFilter, Selection, members_view, opt_text, relations_view,
    unique_names,
};
use crate::namespace::{
    common_prefix, find_common_base_package, get_package_name, get_relative_namespace, package_of,
    relative_namespace,
};
use crate::text::{replace_char, replace_char_in, same_text};

verus! {

/// Whether the front matter turns grouping by package on.
pub open spec fn groups_by_package(front_matter: Option<FrontMatter>) -> bool {
    match front_matter {
        Some(f) => f.group_package == Some(true),
        None => false,
    }
}

/// Whether the document asks for classes to be grouped by package.
pub fn should_group_by_package(diagram: &Diagram) -> (r: bool)
    ensures
        r == groups_by_package(diagram.front_matter),
{
    match &diagram.front_matter {
        Some(f) => match f.group_package {
            Some(b) => b,
            None => false,
        },
        None => false,
    }
}

/// The package of a record with `.` between segments (empty when it has none).
pub open spec fn dotted_package(rec: ClassRecord) -> Seq<char> {
    match full_class_name(rec) {
        Some(n) => replace_char(package_of(n), '/', '.'),
        None => Seq::empty(),
    }
}

/// Whether a select filter matches a dotted package name: its field is
/// `package` and its pattern is that name.
pub open spec fn filter_matches(f: SelectFilter, package: Seq<char>) -> bool {
    &&& f.field.is_some()
    &&& f.field.unwrap()@ == "package"@
    &&& f.pattern.is_some()
    &&& f.pattern.unwrap()@ == package
}

/// Whether one of the filters `fs` matches the dotted package name.
pub open spec fn matches_any(fs: Seq<SelectFilter>, package: Seq<char>) -> bool {
    exists|i: int| 0 <= i < fs.len() && filter_matches(fs[i], package)
}

/// Whether the front matter's select directive lets a record in: no
/// directive lets every record in, a malformed or empty one none, and a
/// list of filters those that one filter matches.
pub open spec fn selected(front_matter: Option<FrontMatter>, rec: ClassRecord) -> bool {
    match front_matter {
        None => true,
        Some(f) => match f.select {
            Selection::Absent => true,
            Selection::Invalid => false,
            Selection::Filters(v) => matches_any(v@, dotted_package(rec)),
        },
    }
}

/// Whether the select directive of the document lets the record in.
pub fn should_include_classfile(diagram: &Diagram, classfile: &ClassRecord) -> (r: bool)
    ensures
        r == selected(diagram.front_matter, *classfile),
{
    let f = match &diagram.front_matter {
        Some(f) => f,
        None => return true,
    };
    let filters = match &f.select {
        Selection::Absent => return true,
        Selection::Invalid => return false,
        Selection::Filters(v) => v,
    };
    assert(diagram.front_matter == Some(*f));
    assert(f.select == Selection::Filters(*filters));
    if filters.len() == 0 {
        return false;
    }
    let package = match get_full_class_name(classfile) {
        Some(full_name) => replace_char_in(get_package_name(full_name.as_str()), '/', '.'),
        None => String::new(),
    };
    let mut i: usize = 0;
    while i < filters.len()
        invariant
            i <= filters@.len(),
            diagram.front_matter == Some(*f),
            f.select == Selection::Filters(*filters),
            package@ == dotted_package(*classfile),
            forall|j: int| 0 <= j < i ==> !filter_matches(filters@[j], package@),
        decreases filters@.len() - i,
    {
        let filter = &filters[i];
        if let Some(field) = &filter.field {
            if same_text(field.as_str(), "package") {
                if let Some(pattern) = &filter.pattern {
                    if same_text(package.as_str(), pattern.as_str()) {
                        assert(filter_matches(filters@[i as int], dotted_package(*classfile)));
                        assert(matches_any(filters@, dotted_package(*classfile)));
                        return true;
                    }
                }
            }
        }
        i += 1;
    }
    false
}

/// A class as plain values: its name, kind and members.
pub open spec fn class_view(c: Class) -> (Seq<char>, ClassKind, Seq<MemberView>) {
    (c.name@, c.kind, members_view(c.members@))
}

/// Whether every namespace of `ns` holds at least one class.
pub open spec fn none_empty(ns: Seq<Namespace>) -> bool {
    forall|i: int| 0 <= i < ns.len() ==> ns[i].classes@.len() > 0
}

/// Whether `ns` holds, in the namespace named `space`, a class named `name`.
pub open spec fn holds_class(ns: Seq<Namespace>, space: Seq<char>, name: Seq<char>) -> bool {
    exists|i: int, j: int|
        0 <= i < ns.len() && 0 <= j < ns[i].classes@.len() && ns[i].name@ == space
            && ns[i].classes@[j].name@ == name
}

/// Whether `ns` holds, in the namespace named `space`, a class with view `cv`.
pub open spec fn placed(
    ns: Seq<Namespace>,
    space: Seq<char>,
    cv: (Seq<char>, ClassKind, Seq<MemberView>),
) -> bool {
    exists|i: int, j: int|
        0 <= i < ns.len() && 0 <= j < ns[i].classes@.len() && ns[i].name@ == space && class_view(
            ns[i].classes@[j],
        ) == cv
}

/// Whether every class of `fin` is the class `cv` in namespace `space`, or
/// stood in `old_ns` in a namespace of the same name.
pub open spec fn from_old_or_new(
    old_ns: Seq<Namespace>,
    fin: Seq<Namespace>,
    space: Seq<char>,
    cv: (Seq<char>, ClassKind, Seq<MemberView>),
) -> bool {
    forall|i: int, j: int|
        0 <= i < fin.len() && 0 <= j < fin[i].classes@.len() ==> (fin[i].name@ == space
            && class_view(fin[i].classes@[j]) == cv) || placed(
            old_ns,
            fin[i].name@,
            class_view(fin[i].classes@[j]),
        )
}

/// Whether every class name that `old_ns` holds in a namespace, `fin` holds there too.
pub open spec fn keeps_names(old_ns: Seq<Namespace>, fin: Seq<Namespace>) -> bool {
    forall|space0: Seq<char>, name0: Seq<char>|
        holds_class(old_ns, space0, name0) ==> holds_class(fin, space0, name0)
}

/// Whether no namespace of `ns` holds two classes of the same name.
pub open spec fn distinct_classes(ns: Seq<Namespace>) -> bool {
    forall|i: int, a: int, b: int|
        0 <= i < ns.len() && 0 <= a < b < ns[i].classes@.len() ==> ns[i].classes@[a].name@
            != ns[i].classes@[b].name@
}

/// Inserts `class` into the namespace named `space`, replacing a class of the
/// same name there, and creating the namespace when it is missing.
pub fn insert_class(namespaces: &mut Vec<Namespace>, space: String, class: Class)
    requires
        unique_names(old(namespaces)@),
        none_empty(old(namespaces)@),
        distinct_classes(old(namespaces)@),
    ensures
        unique_names(final(namespaces)@),
        none_empty(final(namespaces)@),
        distinct_classes(final(namespaces)@),
        placed(final(namespaces)@, space@, class_view(class)),
        holds_class(final(namespaces)@, space@, class.name@),
        from_old_or_new(old(namespaces)@, final(namespaces)@, space@, class_view(class)),
        keeps_names(old(namespaces)@, final(namespaces)@),
{
    let ghost old_ns = namespaces@;
    assert(old_ns == old(namespaces)@);
    assert(unique_names(old_ns));
    let mut i: usize = 0;
    while i < namespaces.len()
        invariant
            i <= namespaces@.len(),
            namespaces@ == old_ns,
            old_ns == old(namespaces)@,
            unique_names(old_ns),
            none_empty(old_ns),
            distinct_classes(old_ns),
            forall|k: int| 0 <= k < i ==> namespaces@[k].name@ != space@,
        decreases namespaces@.len() - i,
    {
        if same_text(namespaces[i].name.as_str(), space.as_str()) {
            let mut ns = namespaces.remove(i);
            let ghost old_classes = ns.classes@;
            let mut j: usize = 0;
            while j < ns.classes.len() && !same_text(ns.classes[j].name.as_str(), class.name.as_str())
                invariant
                    j <= ns.classes@.len(),
                    ns.classes@ == old_classes,
                    i < old_ns.len(),
                    ns == old_ns[i as int],
                    namespaces@ == old_ns.remove(i as int),
                    old_ns == old(namespaces)@,
                    unique_names(old_ns),
                    none_empty(old_ns),
                    distinct_classes(old_ns),
                    ns.name@ == space@,
                    forall|k: int| 0 <= k < j ==> old_classes[k].name@ != class.name@,
                decreases ns.classes@.len() - j,
            {
                j += 1;
            }
            let ghost class_v = class_view(class);
            if j < ns.classes.len() {
                ns.classes.set(j, class);
            } else {
                ns.classes.push(class);
            }
            namespaces.insert(i, ns);
            proof {
                let fin = namespaces@;
                assert(fin.len() == old_ns.len());
                assert forall|k: int| 0 <= k < fin.len() && k != i implies fin[k] == old_ns[k] by {}
                assert(fin[i as int].name@ == space@);
                assert(fin[i as int].classes@.len() > 0);
                assert forall|k: int| 0 <= k < fin.len() implies fin[k].classes@.len() > 0 by {
                    if k != i {
                        assert(fin[k] == old_ns[k]);
                    }
                }
                let jj = if j < old_classes.len() { j as int } else { old_classes.len() as int };
                assert(fin[i as int].classes@[jj].name@ == class.name@);
                assert(holds_class(fin, space@, class.name@));
                assert(class_view(fin[i as int].classes@[jj]) == class_v);
                assert(placed(fin, space@, class_v));
                let nc = fin[i as int].classes@;
                assert forall|a: int, b: int| 0 <= a < b < nc.len() implies nc[a].name@
                    != nc[b].name@ by {
                    if a != jj && b != jj {
                        assert(nc[a] == old_classes[a] && nc[b] == old_classes[b]);
                        assert(old_ns[i as int].classes@ == old_classes);
                    } else {
                        let o = if a == jj { b } else { a };
                        assert(nc[o] == old_classes[o]);
                        if j < old_classes.len() {
                            assert(old_ns[i as int].classes@ == old_classes);
                            assert(old_classes[j as int].name@ == class.name@);
                            assert(old_classes[o].name@ != old_classes[j as int].name@);
                        }
                    }
                }
                assert forall|x: int, a: int, b: int|
                    0 <= x < fin.len() && 0 <= a < b < fin[x].classes@.len() implies fin[x].classes@[
                    a
                ].name@ != fin[x].classes@[b].name@ by {
                    if x != i {
                        assert(fin[x] == old_ns[x]);
                    } else {
                        assert(fin[x].classes@ == nc);
                    }
                }
                assert forall|a: int, b: int|
                    0 <= a < fin.len() && 0 <= b < fin[a].classes@.len() implies (fin[a].name@
                        == space@ && class_view(fin[a].classes@[b]) == class_v) || placed(
                        old_ns,
                        fin[a].name@,
                        class_view(fin[a].classes@[b]),
                    ) by {
                    if a != i {
                        assert(fin[a] == old_ns[a]);
                        assert(old_ns[a].name@ == fin[a].name@ && class_view(old_ns[a].classes@[b])
                            == class_view(fin[a].classes@[b]));
                    } else if b != jj {
                        assert(fin[a].classes@[b] == old_classes[b]);
                        assert(old_ns[a].classes@[b] == old_classes[b]);
                        assert(old_ns[a].name@ == fin[a].name@ && class_view(old_ns[a].classes@[b])
                            == class_view(fin[a].classes@[b]));
                    } else {
                        assert(fin[a].classes@[b] == class);
                    }
                }
                assert forall|space0: Seq<char>, name0: Seq<char>|
                    holds_class(old_ns, space0, name0) implies holds_class(fin, space0, name0) by {
                    let (a, b) = choose|a: int, b: int|
                        0 <= a < old_ns.len() && 0 <= b < old_ns[a].classes@.len()
                            && old_ns[a].name@ == space0 && old_ns[a].classes@[b].name@ == name0;
                    if a != i {
                        assert(fin[a] == old_ns[a]);
                    } else if b != jj {
                        assert(fin[a].classes@[b] == old_classes[b]);
                    } else {
                        assert(old_classes[b].name@ == class.name@);
                        assert(fin[a].classes@[b].name@ == name0);
                    }
                }
                assert forall|x: int, y: int| 0 <= x < y < fin.len() implies fin[x].name@
                    != fin[y].name@ by {
                    assert(old_ns[x].name@ != old_ns[y].name@);
                    assert(fin[x].name@ == old_ns[x].name@);
                    assert(fin[y].name@ == old_ns[y].name@);
                }
            }
            assert(from_old_or_new(old_ns, namespaces@, space@, class_v));
            assert(keeps_names(old_ns, namespaces@));
            return;
        }
        i += 1;
    }
    let ghost class_v = class_view(class);
    let ghost space_v = space@;
    let ghost class_name = class.name@;
    let mut classes: Vec<Class> = Vec::new();
    classes.push(class);
    namespaces.push(Namespace { name: space, classes });
    proof {
        let fin = namespaces@;
        let last = old_ns.len() as int;
        assert forall|k: int| 0 <= k < old_ns.len() implies fin[k] == old_ns[k] by {}
        assert(fin[last].classes@[0].name@ == class_name);
        assert(class_view(fin[last].classes@[0]) == class_v);
        assert(placed(fin, space_v, class_v));
        assert forall|x: int, a: int, b: int|
            0 <= x < fin.len() && 0 <= a < b < fin[x].classes@.len() implies fin[x].classes@[a].name@
            != fin[x].classes@[b].name@ by {
            if x < last {
                assert(fin[x] == old_ns[x]);
            }
        }
        assert(holds_class(fin, space_v, class_name));
        assert forall|a: int, b: int|
            0 <= a < fin.len() && 0 <= b < fin[a].classes@.len() implies (fin[a].name@ == space_v
                && class_view(fin[a].classes@[b]) == class_v) || placed(
                old_ns,
                fin[a].name@,
                class_view(fin[a].classes@[b]),
            ) by {
            if a < last {
                assert(fin[a] == old_ns[a]);
                assert(old_ns[a].name@ == fin[a].name@ && class_view(old_ns[a].classes@[b])
                    == class_view(fin[a].classes@[b]));
            } else {
                assert(fin[a].classes@.len() == 1);
                assert(fin[a].classes@[b] == class);
            }
        }
        assert forall|space0: Seq<char>, name0: Seq<char>|
            holds_class(old_ns, space0, name0) implies holds_class(fin, space0, name0) by {
            let (a, b) = choose|a: int, b: int|
                0 <= a < old_ns.len() && 0 <= b < old_ns[a].classes@.len() && old_ns[a].name@
                    == space0 && old_ns[a].classes@[b].name@ == name0;
            assert(fin[a] == old_ns[a]);
        }
        assert(from_old_or_new(old_ns, fin, space_v, class_v));
        assert(keeps_names(old_ns, fin));
    }
}

/// The relationship annotations in priority order (aggregate, compose,
/// link, navigate), each with the kind of relation it declares.
pub open spec fn relation_kinds(cfg: MergedConfig) -> Seq<(Option<Seq<char>>, RelationKind)> {
    seq![
        (opt_text(cfg.aggregate), RelationKind::Aggregation),
        (opt_text(cfg.compose), RelationKind::Composition),
        (opt_text(cfg.link), RelationKind::Association),
        (opt_text(cfg.navigate), RelationKind::Association),
    ]
}

/// The relationship annotation names of the configuration, in priority order.
pub open spec fn relation_names(cfg: MergedConfig) -> Seq<Option<Seq<char>>> {
    seq![opt_text(cfg.aggregate), opt_text(cfg.compose), opt_text(cfg.link), opt_text(cfg.navigate)]
}

/// Index of the first of `kinds` from `from` on whose annotation the
/// attribute list holds, or the length of `kinds`.
pub open spec fn first_kind(
    pool: Seq<PoolEntry>,
    attrs: Seq<AttributeInfo>,
    kinds: Seq<(Option<Seq<char>>, RelationKind)>,
    from: int,
) -> int
    decreases kinds.len() - from,
{
    if from < 0 || from >= kinds.len() {
        kinds.len() as int
    } else if relationship_params(pool, attrs, kinds[from].0).is_some() {
        from
    } else {
        first_kind(pool, attrs, kinds, from + 1)
    }
}

/// `s`, or nothing when it is empty.
pub open spec fn nonempty(s: Seq<char>) -> Option<Seq<char>> {
    if s.len() == 0 {
        None
    } else {
        Some(s)
    }
}

/// The relation that field `f` of class `tail` declares: from the first
/// relationship annotation (in priority order) that it carries, to the simple
/// name of its object type. Array and primitive fields declare none.
pub open spec fn field_relation(
    rec: ClassRecord,
    tail: Seq<char>,
    kinds: Seq<(Option<Seq<char>>, RelationKind)>,
    f: MemberInfo,
) -> Option<RelationView> {
    let pool = rec.constant_pool@;
    match object_type_name(utf8_or(pool, f.descriptor_index, Seq::empty())) {
        None => None,
        Some(head) => {
            let k = first_kind(pool, f.attributes@, kinds, 0);
            if k < kinds.len() {
                let p = relationship_params(pool, f.attributes@, kinds[k].0).unwrap();
                Some(
                    RelationView {
                        tail,
                        head,
                        kind: kinds[k].1,
                        cardinality_tail: nonempty(p.0),
                        cardinality_head: nonempty(p.2),
                        label: nonempty(p.1),
                    },
                )
            } else {
                None
            }
        },
    }
}

/// A relation without cardinalities or label.
pub open spec fn plain_relation(
    tail: Seq<char>,
    head: Seq<char>,
    kind: RelationKind,
) -> RelationView {
    RelationView {
        tail,
        head,
        kind,
        cardinality_tail: None,
        cardinality_head: None,
        label: None,
    }
}

/// The relations a record of class `tail` contributes: those its fields
/// declare, then inheritance from its explicit superclass, then one
/// realization per interface.
pub open spec fn record_relations(
    tail: Seq<char>,
    rec: ClassRecord,
    kinds: Seq<(Option<Seq<char>>, RelationKind)>,
) -> Seq<RelationView> {
    rec.fields@.filter_map(|f: MemberInfo| field_relation(rec, tail, kinds, f)) + match superclass_name(
        rec,
    ) {
        Some(s) => seq![plain_relation(tail, s, RelationKind::Inheritance)],
        None => Seq::empty(),
    } + interface_names(rec).map_values(
        |n: Seq<char>| plain_relation(tail, n, RelationKind::Realization),
    )
}

/// Whether a record takes part in the diagram: it is no annotation type, the
/// select directive lets it in, and it does not carry the suppression annotation.
pub open spec fn included(front_matter: Option<FrontMatter>, skip: Option<Seq<char>>, rec: ClassRecord) -> bool {
    &&& rec.access_flags & ACC_ANNOTATION == 0
    &&& selected(front_matter, rec)
    &&& !carries_opt(rec.constant_pool@, rec.attributes@, skip)
}

/// The relations that the records contribute, in record order.
pub open spec fn linked_relations(
    records: Seq<(String, ClassRecord)>,
    front_matter: Option<FrontMatter>,
    cfg: MergedConfig,
) -> Seq<RelationView>
    decreases records.len(),
{
    if records.len() == 0 {
        Seq::empty()
    } else {
        linked_relations(records.drop_last(), front_matter, cfg) + if included(
            front_matter,
            opt_text(cfg.skip),
            records.last().1,
        ) {
            record_relations(records.last().0@, records.last().1, relation_kinds(cfg))
        } else {
            Seq::empty()
        }
    }
}

/// The non-empty packages of the included records that name their class.
pub open spec fn base_packages(
    records: Seq<(String, ClassRecord)>,
    front_matter: Option<FrontMatter>,
    skip: Option<Seq<char>>,
) -> Seq<Seq<char>> {
    records.filter_map(
        |e: (String, ClassRecord)|
            if included(front_matter, skip, e.1) && full_class_name(e.1).is_some() && package_of(
                full_class_name(e.1).unwrap(),
            ).len() > 0 {
                Some(package_of(full_class_name(e.1).unwrap()))
            } else {
                None
            },
    )
}

/// The namespace of a record: the default one unless grouping by package is
/// on, else its package relative to `base`.
pub open spec fn namespace_of(front_matter: Option<FrontMatter>, base: Seq<char>, rec: ClassRecord) -> Seq<char> {
    if groups_by_package(front_matter) {
        match full_class_name(rec) {
            Some(n) => relative_namespace(base, package_of(n)),
            None => Seq::empty(),
        }
    } else {
        Seq::empty()
    }
}

/// The class model of a record under `name`, as plain values.
pub open spec fn class_model(rec: ClassRecord, name: Seq<char>, cfg: MergedConfig) -> (
    Seq<char>,
    ClassKind,
    Seq<MemberView>,
) {
    (name, crate::classfile::kind_of(rec.access_flags), class_members(rec, name, opt_text(cfg.skip), relation_names(cfg)))
}

/// Whether one of the first `bound` records is included, belongs in
/// namespace `space`, and has class model `cv`.
pub open spec fn from_some_record(
    records: Seq<(String, ClassRecord)>,
    bound: int,
    front_matter: Option<FrontMatter>,
    cfg: MergedConfig,
    base: Seq<char>,
    space: Seq<char>,
    cv: (Seq<char>, ClassKind, Seq<MemberView>),
) -> bool {
    exists|k: int|
        0 <= k < bound && included(front_matter, opt_text(cfg.skip), records[k].1) && space
            == namespace_of(front_matter, base, records[k].1) && cv == class_model(
            records[k].1,
            records[k].0@,
            cfg,
        )
}

/// Whether every class of `ns` comes from one of the first `bound` records.
pub open spec fn all_from_records(
    ns: Seq<Namespace>,
    records: Seq<(String, ClassRecord)>,
    bound: int,
    front_matter: Option<FrontMatter>,
    cfg: MergedConfig,
    base: Seq<char>,
) -> bool {
    forall|i: int, j: int|
        0 <= i < ns.len() && 0 <= j < ns[i].classes@.len() ==> from_some_record(
            records,
            bound,
            front_matter,
            cfg,
            base,
            ns[i].name@,
            class_view(ns[i].classes@[j]),
        )
}

/// Whether every included record among the first `bound` has a class of
/// its name in its namespace.
pub open spec fn all_records_placed(
    ns: Seq<Namespace>,
    records: Seq<(String, ClassRecord)>,
    bound: int,
    front_matter: Option<FrontMatter>,
    cfg: MergedConfig,
    base: Seq<char>,
) -> bool {
    forall|k: int|
        0 <= k < bound && included(front_matter, opt_text(cfg.skip), records[k].1) ==> holds_class(
            ns,
            namespace_of(front_matter, base, records[k].1),
            records[k].0@,
        )
}

fn as_opt_str(o: &Option<String>) -> (r: Option<&str>)
    ensures
        opt_str(r) == opt_text(*o),
{
    match o {
        Some(s) => Some(s.as_str()),
        None => None,
    }
}

/// `s`, or nothing when it is empty.
fn nonempty_text(s: String) -> (r: Option<String>)
    ensures
        opt_text(r) == nonempty(s@),
{
    if s.as_str().unicode_len() == 0 {
        None
    } else {
        Some(s)
    }
}

/// The plain values of a list of relationship annotations and their kinds.
pub open spec fn kinds_view(kinds: Seq<(Option<&str>, RelationKind)>) -> Seq<
    (Option<Seq<char>>, RelationKind),
> {
    kinds.map_values(|p: (Option<&str>, RelationKind)| (opt_str(p.0), p.1))
}

/// The relation that field `f` of class `tail` declares, if any.
fn relation_for_field(
    class_file: &ClassRecord,
    tail: &String,
    kinds: &Vec<(Option<&str>, RelationKind)>,
    f: &MemberInfo,
) -> (r: Option<Relation>)
    ensures
        match r {
            Some(x) => field_relation(*class_file, tail@, kinds_view(kinds@), *f) == Some(x@),
            None => field_relation(*class_file, tail@, kinds_view(kinds@), *f).is_none(),
        },
{
    let pool = class_file.constant_pool.as_slice();
    proof {
        reveal_strlit("");
    }
    let descriptor = get_utf8_or(pool, f.descriptor_index, "");
    let target = match extract_class_name_from_descriptor(descriptor) {
        Some(t) => t,
        None => return None,
    };
    let ghost kv = kinds_view(kinds@);
    let mut r: usize = 0;
    while r < kinds.len()
        invariant
            r <= kinds@.len(),
            kv == kinds_view(kinds@),
            pool@ == class_file.constant_pool@,
            object_type_name(utf8_or(pool@, f.descriptor_index, Seq::empty())) == Some(target@),
            first_kind(pool@, f.attributes@, kv, 0) == first_kind(pool@, f.attributes@, kv, r as int),
        decreases kinds@.len() - r,
    {
        let (annotation, kind) = kinds[r];
        assert(kv[r as int] == (opt_str(annotation), kind));
        match get_annotation_params(pool, f.attributes.as_slice(), annotation) {
            Some((self_card, label, other_card)) => {
                return Some(
                    Relation {
                        tail: tail.clone(),
                        head: target,
                        kind,
                        cardinality_tail: nonempty_text(self_card),
                        cardinality_head: nonempty_text(other_card),
                        label: nonempty_text(label),
                    },
                );
            },
            None => {},
        }
        r += 1;
    }
    None
}

/// Appends to `relations` those that record `class_file` of class `tail` contributes.
fn push_record_relations(
    relations: &mut Vec<Relation>,
    class_file: &ClassRecord,
    tail: &String,
    kinds: &Vec<(Option<&str>, RelationKind)>,
)
    ensures
        relations_view(final(relations)@) == relations_view(old(relations)@) + record_relations(
            tail@,
            *class_file,
            kinds_view(kinds@),
        ),
{
    let ghost start = relations_view(relations@);
    let ghost rec = *class_file;
    let ghost kv = kinds_view(kinds@);
    let ghost fr = |f: MemberInfo| field_relation(rec, tail@, kv, f);
    let mut i: usize = 0;
    while i < class_file.fields.len()
        invariant
            i <= class_file.fields@.len(),
            rec == *class_file,
            kv == kinds_view(kinds@),
            fr == (|f: MemberInfo| field_relation(rec, tail@, kv, f)),
            start == relations_view(old(relations)@),
            relations_view(relations@) == start + class_file.fields@.take(i as int).filter_map(fr),
        decreases class_file.fields@.len() - i,
    {
        let ghost before = relations@;
        assert(class_file.fields@.take(i + 1).drop_last() =~= class_file.fields@.take(i as int));
        match relation_for_field(class_file, tail, kinds, &class_file.fields[i]) {
            Some(rel) => {
                relations.push(rel);
                assert(relations_view(relations@) =~= relations_view(before) + seq![rel@]);
            },
            None => {},
        }
        i += 1;
    }
    assert(class_file.fields@.take(i as int) =~= class_file.fields@);
    let ghost after_fields = relations_view(relations@);
    let ghost super_part = match superclass_name(rec) {
        Some(s) => seq![plain_relation(tail@, s, RelationKind::Inheritance)],
        None => Seq::empty(),
    };
    match get_superclass_name(class_file) {
        Some(superclass) => {
            relations.push(
                Relation {
                    tail: tail.clone(),
                    head: superclass,
                    kind: RelationKind::Inheritance,
                    cardinality_tail: None,
                    cardinality_head: None,
                    label: None,
                },
            );
            assert(relations_view(relations@) =~= after_fields + super_part);
        },
        None => {
            assert(relations_view(relations@) =~= after_fields + super_part);
        },
    }
    let ghost after_super = relations_view(relations@);
    let interfaces = get_interface_names(class_file);
    let ghost names = interfaces.deep_view();
    let mut j: usize = 0;
    while j < interfaces.len()
        invariant
            j <= interfaces@.len(),
            names == interfaces.deep_view(),
            relations_view(relations@) == after_super + names.take(j as int).map_values(
                |n: Seq<char>| plain_relation(tail@, n, RelationKind::Realization),
            ),
        decreases interfaces@.len() - j,
    {
        let ghost before = relations@;
        assert(names[j as int] == interfaces@[j as int]@);
        relations.push(
            Relation {
                tail: tail.clone(),
                head: interfaces[j].clone(),
                kind: RelationKind::Realization,
                cardinality_tail: None,
                cardinality_head: None,
                label: None,
            },
        );
        assert(names.take(j + 1) =~= names.take(j as int).push(names[j as int]));
        assert(relations_view(relations@) =~= relations_view(before) + seq![
            plain_relation(tail@, names[j as int], RelationKind::Realization),
        ]);
        assert(names.take(j + 1).map_values(
            |n: Seq<char>| plain_relation(tail@, n, RelationKind::Realization),
        ) =~= names.take(j as int).map_values(
            |n: Seq<char>| plain_relation(tail@, n, RelationKind::Realization),
        ).push(plain_relation(tail@, names[j as int], RelationKind::Realization)));
        j += 1;
    }
    assert(names.take(j as int) =~= names);
}

/// Whether a record takes part in the diagram.
fn is_included(diagram: &Diagram, class_file: &ClassRecord, skip: Option<&str>) -> (r: bool)
    ensures
        r == included(diagram.front_matter, opt_str(skip), *class_file),
{
    !is_annotation(class_file) && should_include_classfile(diagram, class_file) && !has_annotation(
        class_file.constant_pool.as_slice(),
        class_file.attributes.as_slice(),
        skip,
    )
}

/// The non-empty packages of the included records.
fn collect_packages(diagram: &Diagram, classfiles: &[(String, ClassRecord)], skip: Option<&str>) -> (r:
    Vec<String>)
    ensures
        r.deep_view() == base_packages(classfiles@, diagram.front_matter, opt_str(skip)),
{
    let ghost fm = diagram.front_matter;
    let ghost sk = opt_str(skip);
    let ghost pf = |e: (String, ClassRecord)|
        if included(fm, sk, e.1) && full_class_name(e.1).is_some() && package_of(
            full_class_name(e.1).unwrap(),
        ).len() > 0 {
            Some(package_of(full_class_name(e.1).unwrap()))
        } else {
            None
        };
    let mut packages: Vec<String> = Vec::new();
    let mut k: usize = 0;
    while k < classfiles.len()
        invariant
            k <= classfiles@.len(),
            fm == diagram.front_matter,
            sk == opt_str(skip),
            pf == (|e: (String, ClassRecord)|
                if included(fm, sk, e.1) && full_class_name(e.1).is_some() && package_of(
                    full_class_name(e.1).unwrap(),
                ).len() > 0 {
                    Some(package_of(full_class_name(e.1).unwrap()))
                } else {
                    None
                }),
            packages.deep_view() == classfiles@.take(k as int).filter_map(pf),
        decreases classfiles@.len() - k,
    {
        let ghost before = packages.deep_view();
        assert(classfiles@.take(k + 1).drop_last() =~= classfiles@.take(k as int));
        let class_file = &classfiles[k].1;
        if is_included(diagram, class_file, skip) {
            if let Some(full_name) = get_full_class_name(class_file) {
                let package = get_package_name(full_name.as_str());
                if package.unicode_len() > 0 {
                    packages.push(String::from_str(package));
                    assert(packages.deep_view() =~= before + seq![package@]);
                }
            }
        }
        k += 1;
    }
    assert(classfiles@.take(k as int) =~= classfiles@);
    packages
}

/// Borrows each string of `v`.
fn as_strs(v: &Vec<String>) -> (r: Vec<&str>)
    ensures
        r@.map_values(|p: &str| p@) == v.deep_view(),
{
    let mut r: Vec<&str> = Vec::new();
    let mut i: usize = 0;
    while i < v.len()
        invariant
            i <= v@.len(),
            r@.len() == i,
            forall|k: int| 0 <= k < i ==> r@[k]@ == v@[k]@,
        decreases v@.len() - i,
    {
        r.push(v[i].as_str());
        i += 1;
    }
    assert(r@.map_values(|p: &str| p@) =~= v.deep_view());
    r
}

/// Merges class records, in the given order, into `diagram`: the document's
/// classes are replaced by the class models of the included records, each
/// placed in its namespace (a later class of the same name replaces an earlier
/// one there), and the relations the included records declare are appended
/// to the document's own. The front matter is kept as it is.
pub fn link_diagram(diagram: &mut Diagram, classfiles: &[(String, ClassRecord)], config: &MergedConfig)
    ensures
        final(diagram).front_matter == old(diagram).front_matter,
        relations_view(final(diagram).relations@) == relations_view(old(diagram).relations@)
            + linked_relations(classfiles@, old(diagram).front_matter, *config),
        unique_names(final(diagram).namespaces@),
        none_empty(final(diagram).namespaces@),
        distinct_classes(final(diagram).namespaces@),
        all_from_records(
            final(diagram).namespaces@,
            classfiles@,
            classfiles@.len() as int,
            old(diagram).front_matter,
            *config,
            common_prefix(base_packages(classfiles@, old(diagram).front_matter, opt_text(config.skip))),
        ),
        all_records_placed(
            final(diagram).namespaces@,
            classfiles@,
            classfiles@.len() as int,
            old(diagram).front_matter,
            *config,
            common_prefix(base_packages(classfiles@, old(diagram).front_matter, opt_text(config.skip))),
        ),
        !groups_by_package(old(diagram).front_matter) ==> final(diagram).namespaces@.len() <= 1
            && forall|i: int|
            0 <= i < final(diagram).namespaces@.len() ==> final(diagram).namespaces@[i].name@
                == Seq::<char>::empty(),
        selects_nothing(old(diagram).front_matter) ==> final(diagram).namespaces@.len() == 0,
        (forall|a: int, b: int|
            0 <= a < b < classfiles@.len() ==> classfiles@[a].0@ != classfiles@[b].0@) ==> forall|
            k: int,
            i: int,
            j: int,
        |
            0 <= k < classfiles@.len() && carries_opt(
                classfiles@[k].1.constant_pool@,
                classfiles@[k].1.attributes@,
                opt_text(config.skip),
            ) && 0 <= i < final(diagram).namespaces@.len()
                && 0 <= j < final(diagram).namespaces@[i].classes@.len()
                ==> final(diagram).namespaces@[i].classes@[j].name@ != classfiles@[k].0@,
{
    let ghost fm = diagram.front_matter;
    let ghost cfg = *config;
    let ghost old_rel = relations_view(diagram.relations@);
    let skip = as_opt_str(&config.skip);
    let aggregate = as_opt_str(&config.aggregate);
    let compose = as_opt_str(&config.compose);
    let link = as_opt_str(&config.link);
    let navigate = as_opt_str(&config.navigate);
    let relationship_annotations: Vec<Option<&str>> = vec![aggregate, compose, link, navigate];
    let kinds: Vec<(Option<&str>, RelationKind)> = vec![
        (aggregate, RelationKind::Aggregation),
        (compose, RelationKind::Composition),
        (link, RelationKind::Association),
        (navigate, RelationKind::Association),
    ];
    assert(names_view(relationship_annotations@) =~= relation_names(cfg));
    assert(kinds_view(kinds@) =~= relation_kinds(cfg));
    let ghost base_v = common_prefix(base_packages(classfiles@, fm, opt_text(cfg.skip)));
    let group = should_group_by_package(diagram);
    let base = if group {
        let packages = collect_packages(diagram, classfiles, skip);
        let refs = as_strs(&packages);
        find_common_base_package(refs.as_slice())
    } else {
        String::new()
    };
    assert(forall|rec: ClassRecord| namespace_of(fm, base@, rec) == namespace_of(fm, base_v, rec));
    diagram.namespaces = Vec::new();
    let mut k: usize = 0;
    while k < classfiles.len()
        invariant
            k <= classfiles@.len(),
            diagram.front_matter == fm,
            cfg == *config,
            opt_str(skip) == opt_text(cfg.skip),
            names_view(relationship_annotations@) == relation_names(cfg),
            kinds_view(kinds@) == relation_kinds(cfg),
            group == groups_by_package(fm),
            forall|rec: ClassRecord| namespace_of(fm, base@, rec) == namespace_of(fm, base_v, rec),
            relations_view(diagram.relations@) == old_rel + linked_relations(
                classfiles@.take(k as int),
                fm,
                cfg,
            ),
            unique_names(diagram.namespaces@),
            none_empty(diagram.namespaces@),
            distinct_classes(diagram.namespaces@),
            all_from_records(diagram.namespaces@, classfiles@, k as int, fm, cfg, base_v),
            all_records_placed(diagram.namespaces@, classfiles@, k as int, fm, cfg, base_v),
        decreases classfiles@.len() - k,
    {
        let class_name = &classfiles[k].0;
        let class_file = &classfiles[k].1;
        let ghost rec = *class_file;
        let ghost prev_ns = diagram.namespaces@;
        assert(classfiles@.take(k + 1).drop_last() =~= classfiles@.take(k as int));
        assert(classfiles@.take(k + 1).last() == classfiles@[k as int]);
        if is_included(diagram, class_file, skip) {
            let class = classfile_to_mermaid_class(
                class_file,
                class_name.as_str(),
                skip,
                relationship_annotations.as_slice(),
            );
            let ghost cv = class_view(class);
            assert(cv == class_model(rec, class_name@, cfg));
            let space = if group {
                match get_full_class_name(class_file) {
                    Some(full_name) => get_relative_namespace(
                        base.as_str(),
                        get_package_name(full_name.as_str()),
                    ),
                    None => String::new(),
                }
            } else {
                String::new()
            };
            assert(space@ == namespace_of(fm, base_v, rec));
            insert_class(&mut diagram.namespaces, space, class);
            proof {
                let fin = diagram.namespaces@;
                assert forall|i: int, j: int|
                    0 <= i < fin.len() && 0 <= j < fin[i].classes@.len() implies from_some_record(
                    classfiles@,
                    k + 1,
                    fm,
                    cfg,
                    base_v,
                    fin[i].name@,
                    class_view(fin[i].classes@[j]),
                ) by {
                    if fin[i].name@ == namespace_of(fm, base_v, rec) && class_view(fin[i].classes@[j])
                        == cv {
                        assert(classfiles@[k as int].1 == rec);
                    } else {
                        assert(placed(prev_ns, fin[i].name@, class_view(fin[i].classes@[j])));
                        let (i0, j0) = choose|i0: int, j0: int|
                            0 <= i0 < prev_ns.len() && 0 <= j0 < prev_ns[i0].classes@.len()
                                && prev_ns[i0].name@ == fin[i].name@ && class_view(
                                prev_ns[i0].classes@[j0],
                            ) == class_view(fin[i].classes@[j]);
                        assert(from_some_record(
                            classfiles@,
                            k as int,
                            fm,
                            cfg,
                            base_v,
                            prev_ns[i0].name@,
                            class_view(prev_ns[i0].classes@[j0]),
                        ));
                        let kk = choose|kk: int|
                            0 <= kk < k && included(fm, opt_text(cfg.skip), classfiles@[kk].1)
                                && prev_ns[i0].name@ == namespace_of(fm, base_v, classfiles@[kk].1)
                                && class_view(prev_ns[i0].classes@[j0]) == class_model(
                                classfiles@[kk].1,
                                classfiles@[kk].0@,
                                cfg,
                            );
                        assert(0 <= kk < k + 1);
                    }
                }
                assert forall|kk: int|
                    0 <= kk < k + 1 && included(
                        fm,
                        opt_text(cfg.skip),
                        classfiles@[kk].1,
                    ) implies holds_class(
                    fin,
                    namespace_of(fm, base_v, classfiles@[kk].1),
                    classfiles@[kk].0@,
                ) by {
                    if kk < k {
                        assert(holds_class(
                            prev_ns,
                            namespace_of(fm, base_v, classfiles@[kk].1),
                            classfiles@[kk].0@,
                        ));
                    }
                }
            }
            push_record_relations(&mut diagram.relations, class_file, class_name, &kinds);
        } else {
            proof {
                let fin = diagram.namespaces@;
                assert forall|i: int, j: int|
                    0 <= i < fin.len() && 0 <= j < fin[i].classes@.len() implies from_some_record(
                    classfiles@,
                    k + 1,
                    fm,
                    cfg,
                    base_v,
                    fin[i].name@,
                    class_view(fin[i].classes@[j]),
                ) by {
                    assert(from_some_record(
                        classfiles@,
                        k as int,
                        fm,
                        cfg,
                        base_v,
                        fin[i].name@,
                        class_view(fin[i].classes@[j]),
                    ));
                }
            }
        }
        k += 1;
    }
    assert(classfiles@.take(k as int) =~= classfiles@);
    proof {
        let ns = diagram.namespaces@;
        let n = classfiles@.len() as int;
        if !groups_by_package(fm) {
            lemma_ungrouped_single_namespace(ns, classfiles@, fm, cfg, base_v);
        }
        if selects_nothing(fm) {
            lemma_empty_select_no_classes(ns, classfiles@, fm, cfg, base_v);
        }
        if forall|a: int, b: int| 0 <= a < b < n ==> classfiles@[a].0@ != classfiles@[b].0@ {
            assert forall|kk: int, i: int, j: int|
                0 <= kk < n && carries_opt(
                    classfiles@[kk].1.constant_pool@,
                    classfiles@[kk].1.attributes@,
                    opt_text(cfg.skip),
                ) && 0 <= i < ns.len() && 0 <= j < ns[i].classes@.len() implies ns[i].classes@[j].name@
                != classfiles@[kk].0@ by {
                lemma_suppressed_class_absent(ns, classfiles@, fm, cfg, base_v, kk);
            }
        }
    }
}

/// When the records name distinct classes, a record that carries the
/// suppression annotation puts no class of its name in the merged document.
pub proof fn lemma_suppressed_class_absent(
    ns: Seq<Namespace>,
    records: Seq<(String, ClassRecord)>,
    front_matter: Option<FrontMatter>,
    cfg: MergedConfig,
    base: Seq<char>,
    k: int,
)
    requires
        all_from_records(ns, records, records.len() as int, front_matter, cfg, base),
        forall|a: int, b: int|
            0 <= a < b < records.len() ==> records[a].0@ != records[b].0@,
        0 <= k < records.len(),
        carries_opt(records[k].1.constant_pool@, records[k].1.attributes@, opt_text(cfg.skip)),
    ensures
        forall|i: int, j: int|
            0 <= i < ns.len() && 0 <= j < ns[i].classes@.len() ==> ns[i].classes@[j].name@
                != records[k].0@,
{
    assert forall|i: int, j: int| 0 <= i < ns.len() && 0 <= j < ns[i].classes@.len() implies ns[
        i
    ].classes@[j].name@ != records[k].0@ by {
        assert(from_some_record(
            records,
            records.len() as int,
            front_matter,
            cfg,
            base,
            ns[i].name@,
            class_view(ns[i].classes@[j]),
        ));
        let kk = choose|kk: int|
            0 <= kk < records.len() && included(front_matter, opt_text(cfg.skip), records[kk].1)
                && ns[i].name@ == namespace_of(front_matter, base, records[kk].1) && class_view(
                ns[i].classes@[j],
            ) == class_model(records[kk].1, records[kk].0@, cfg);
        if kk < k {
            assert(records[kk].0@ != records[k].0@);
        } else if kk > k {
            assert(records[k].0@ != records[kk].0@);
        }
    }
}

proof fn lemma_linked_prefix(
    records: Seq<(String, ClassRecord)>,
    front_matter: Option<FrontMatter>,
    cfg: MergedConfig,
    n: int,
)
    requires
        0 <= n <= records.len(),
    ensures
        linked_relations(records.take(n), front_matter, cfg).len() <= linked_relations(
            records,
            front_matter,
            cfg,
        ).len(),
        linked_relations(records, front_matter, cfg).subrange(
            0,
            linked_relations(records.take(n), front_matter, cfg).len() as int,
        ) == linked_relations(records.take(n), front_matter, cfg),
    decreases records.len() - n,
{
    if n == records.len() {
        assert(records.take(n) =~= records);
        assert(linked_relations(records, front_matter, cfg).subrange(
            0,
            linked_relations(records, front_matter, cfg).len() as int,
        ) =~= linked_relations(records, front_matter, cfg));
    } else {
        lemma_linked_prefix(records, front_matter, cfg, n + 1);
        assert(records.take(n + 1).drop_last() =~= records.take(n));
        let short = linked_relations(records.take(n), front_matter, cfg);
        let longer = linked_relations(records.take(n + 1), front_matter, cfg);
        let all = linked_relations(records, front_matter, cfg);
        assert(longer.subrange(0, short.len() as int) =~= short);
        assert(all.subrange(0, short.len() as int) =~= longer.subrange(0, short.len() as int));
    }
}

/// Suppressing a class removes its definition, not the references to it:
/// the relations each included record declares, whatever class they lead
/// to, stand in the merged relations in one piece.
pub proof fn lemma_included_relations_kept(
    records: Seq<(String, ClassRecord)>,
    front_matter: Option<FrontMatter>,
    cfg: MergedConfig,
    m: int,
)
    requires
        0 <= m < records.len(),
        included(front_matter, opt_text(cfg.skip), records[m].1),
    ensures
        exists|s: int|
            0 <= s && s + record_relations(records[m].0@, records[m].1, relation_kinds(cfg)).len()
                <= linked_relations(records, front_matter, cfg).len() && #[trigger] linked_relations(
                records,
                front_matter,
                cfg,
            ).subrange(
                s,
                s + record_relations(records[m].0@, records[m].1, relation_kinds(cfg)).len(),
            ) == record_relations(records[m].0@, records[m].1, relation_kinds(cfg)),
{
    let rr = record_relations(records[m].0@, records[m].1, relation_kinds(cfg));
    lemma_linked_prefix(records, front_matter, cfg, m + 1);
    assert(records.take(m + 1).drop_last() =~= records.take(m));
    assert(records.take(m + 1).last() == records[m]);
    let before = linked_relations(records.take(m), front_matter, cfg);
    let upto = linked_relations(records.take(m + 1), front_matter, cfg);
    let all = linked_relations(records, front_matter, cfg);
    assert(upto == before + rr);
    let s = before.len() as int;
    assert(all.subrange(s, s + rr.len()) =~= upto.subrange(s, s + rr.len()));
    assert(upto.subrange(s, s + rr.len()) =~= rr);
}

/// With grouping by package off, the merged document has at most one
/// namespace, the default one, which holds every class.
pub proof fn lemma_ungrouped_single_namespace(
    ns: Seq<Namespace>,
    records: Seq<(String, ClassRecord)>,
    front_matter: Option<FrontMatter>,
    cfg: MergedConfig,
    base: Seq<char>,
)
    requires
        !groups_by_package(front_matter),
        all_from_records(ns, records, records.len() as int, front_matter, cfg, base),
        none_empty(ns),
        unique_names(ns),
    ensures
        forall|i: int| 0 <= i < ns.len() ==> ns[i].name@ == Seq::<char>::empty(),
        ns.len() <= 1,
{
    assert forall|i: int| 0 <= i < ns.len() implies ns[i].name@ == Seq::<char>::empty() by {
        assert(from_some_record(
            records,
            records.len() as int,
            front_matter,
            cfg,
            base,
            ns[i].name@,
            class_view(ns[i].classes@[0]),
        ));
    }
    if ns.len() > 1 {
        assert(ns[0].name@ != ns[1].name@);
    }
}

/// Whether the front matter holds a select directive with no filters.
pub open spec fn selects_nothing(front_matter: Option<FrontMatter>) -> bool {
    match front_matter {
        Some(f) => match f.select {
            Selection::Filters(v) => v@.len() == 0,
            _ => false,
        },
        None => false,
    }
}

/// An empty select directive lets no class into the merged document.
pub proof fn lemma_empty_select_no_classes(
    ns: Seq<Namespace>,
    records: Seq<(String, ClassRecord)>,
    front_matter: Option<FrontMatter>,
    cfg: MergedConfig,
    base: Seq<char>,
)
    requires
        selects_nothing(front_matter),
        all_from_records(ns, records, records.len() as int, front_matter, cfg, base),
        none_empty(ns),
    ensures
        ns.len() == 0,
{
    if ns.len() > 0 {
        assert(from_some_record(
            records,
            records.len() as int,
            front_matter,
            cfg,
            base,
            ns[0].name@,
            class_view(ns[0].classes@[0]),
        ));
        let kk = choose|kk: int|
            0 <= kk < records.len() && included(front_matter, opt_text(cfg.skip), records[kk].1)
                && ns[0].name@ == namespace_of(front_matter, base, records[kk].1) && class_view(
                ns[0].classes@[0],
            ) == class_model(records[kk].1, records[kk].0@, cfg);
        assert(selected(front_matter, records[kk].1));
    }
}

} // verus!
