//! A decoded JVM class record, held as plain values, and the queries that
//! the extraction reads from it: constant-pool lookups, access flags and
//! annotations.

use vstd::prelude::*;
use vstd::string::*;
use crate::namespace::last_index_of;
use crate::descriptor::{
    field_type, last_segment, method_signature, parse_field_descriptor, parse_method_descriptor,
};
use crate::diagram::{
    Attribute, Class, ClassKind, Member, MemberView, Method, Parameter, Visibility, members_view,
};
use crate::text::{
    drop_leading, drop_trailing, push_decimal, decimal, replace_char, replace_char_in, same_text,
    strip_prefix_char, strip_suffix_char, trim_both, trim_char, has_prefix, starts_with_text,
};

verus! {

pub const ACC_PUBLIC: u16 = 0x0001;
pub const ACC_PRIVATE: u16 = 0x0002;
pub const ACC_PROTECTED: u16 = 0x0004;
pub const ACC_STATIC: u16 = 0x0008;
pub const ACC_INTERFACE: u16 = 0x0200;
pub const ACC_ABSTRACT: u16 = 0x0400;
pub const ACC_ANNOTATION: u16 = 0x2000;
pub const ACC_ENUM: u16 = 0x4000;

/// An entry of the constant pool, as far as the extraction reads it.
#[derive(Clone, Debug)]
pub enum PoolEntry {
    Empty,
    Utf8(String),
    /// A class reference: the index of its slash-separated name.
    Class { name_index: u16 },
    /// A string constant: the index of its text.
    Text { string_index: u16 },
    /// A numeric constant, as its decimal rendering.
    Number(String),
    Other,
}

/// The value of an annotation element.
#[derive(Clone, Debug)]
pub enum ElementValue {
    /// A constant: the index of its pool entry.
    Const { const_value_index: u16 },
    Other,
}

#[derive(Clone, Debug)]
pub struct ElementValuePair {
    pub element_name_index: u16,
    pub value: ElementValue,
}

/// An annotation instance: the pool index of its type descriptor and its
/// named element values.
#[derive(Clone, Debug)]
pub struct Annotation {
    pub type_index: u16,
    pub element_value_pairs: Vec<ElementValuePair>,
}

/// An attribute of a class, field or method, as far as the extraction reads it.
#[derive(Clone, Debug)]
pub enum AttributeInfo {
    /// Annotations retained at run time.
    VisibleAnnotations(Vec<Annotation>),
    /// Annotations retained in the class file only.
    InvisibleAnnotations(Vec<Annotation>),
    /// The name index of each parameter of a method (0 when unnamed).
    MethodParameters(Vec<u16>),
    Record,
    Other,
}

/// A field or a method.
#[derive(Clone, Debug)]
pub struct MemberInfo {
    pub access_flags: u16,
    pub name_index: u16,
    pub descriptor_index: u16,
    pub attributes: Vec<AttributeInfo>,
}

/// A decoded class record.
#[derive(Clone, Debug)]
pub struct ClassRecord {
    pub access_flags: u16,
    pub this_class: u16,
    pub super_class: u16,
    pub interfaces: Vec<u16>,
    pub constant_pool: Vec<PoolEntry>,
    pub fields: Vec<MemberInfo>,
    pub methods: Vec<MemberInfo>,
    pub attributes: Vec<AttributeInfo>,
}

/// The text of the UTF-8 entry at `index`; index 0 and indexes past the pool
/// name nothing.
pub open spec fn utf8_at(pool: Seq<PoolEntry>, index: int) -> Option<Seq<char>> {
    if index == 0 || index >= pool.len() || index < 0 {
        None
    } else {
        match pool[index] {
            PoolEntry::Utf8(s) => Some(s@),
            _ => None,
        }
    }
}

/// Looks up the UTF-8 entry at `index`.
pub fn get_utf8(constant_pool: &[PoolEntry], index: u16) -> (r: Option<&str>)
    ensures
        r.is_some() == utf8_at(constant_pool@, index as int).is_some(),
        r.is_some() ==> r.unwrap()@ == utf8_at(constant_pool@, index as int).unwrap(),
{
    if index == 0 || index as usize >= constant_pool.len() {
        return None;
    }
    match &constant_pool[index as usize] {
        PoolEntry::Utf8(value) => Some(value.as_str()),
        _ => None,
    }
}

/// The slash-separated name of the class entry at `index`.
pub open spec fn class_entry_name(pool: Seq<PoolEntry>, index: int) -> Option<Seq<char>> {
    if 0 <= index < pool.len() {
        match pool[index] {
            PoolEntry::Class { name_index } => utf8_at(pool, name_index as int),
            _ => None,
        }
    } else {
        None
    }
}

/// The fully qualified, slash-separated name of the class a record defines.
pub open spec fn full_class_name(rec: ClassRecord) -> Option<Seq<char>> {
    class_entry_name(rec.constant_pool@, rec.this_class as int)
}

/// The fully qualified name of the class (`com/example/MyClass`).
pub fn get_full_class_name(class_file: &ClassRecord) -> (r: Option<String>)
    ensures
        r.is_some() == full_class_name(*class_file).is_some(),
        r.is_some() ==> r.unwrap()@ == full_class_name(*class_file).unwrap(),
{
    let pool = class_file.constant_pool.as_slice();
    let index = class_file.this_class as usize;
    if index < pool.len() {
        match &pool[index] {
            PoolEntry::Class { name_index } => match get_utf8(pool, *name_index) {
                Some(s) => Some(String::from_str(s)),
                None => None,
            },
            _ => None,
        }
    } else {
        None
    }
}

/// The simple name of the class entry at `index`, with `$` (inner classes)
/// shown as `.`; index 0 names no class.
pub open spec fn simple_class_name(pool: Seq<PoolEntry>, index: int) -> Option<Seq<char>> {
    if index == 0 {
        None
    } else {
        match class_entry_name(pool, index) {
            Some(full) => Some(replace_char(last_segment(full), '$', '.')),
            None => None,
        }
    }
}

/// Copies the part of `s` after its last `/`.
fn last_segment_of(s: &str) -> (r: String)
    ensures
        r@ == last_segment(s@),
{
    let n = s.unicode_len();
    let mut start = n;
    assert(s@.subrange(0, n as int) =~= s@);
    assert(s@.subrange(n as int, n as int) =~= Seq::<char>::empty());
    while start > 0 && s.get_char(start - 1) != '/'
        invariant
            start <= n,
            n == s@.len(),
            last_segment(s@) == last_segment(s@.subrange(0, start as int)) + s@.subrange(
                start as int,
                n as int,
            ),
        decreases start,
    {
        let ghost p = s@.subrange(0, start as int);
        assert(p.drop_last() =~= s@.subrange(0, start - 1));
        assert(s@.subrange(start - 1, n as int) =~= seq![p.last()] + s@.subrange(
            start as int,
            n as int,
        ));
        assert(last_segment(p.drop_last()).push(p.last()) + s@.subrange(start as int, n as int)
            =~= last_segment(p.drop_last()) + s@.subrange(start - 1, n as int));
        start -= 1;
    }
    assert(last_segment(s@.subrange(0, start as int)) =~= Seq::empty()) by {
        if start > 0 {
            assert(s@.subrange(0, start as int).last() == '/');
        }
    }
    assert(last_segment(s@) =~= s@.subrange(start as int, n as int));
    String::from_str(s.substring_char(start, n))
}

/// The simple name of the class entry at `class_index`.
fn get_class_name_from_index(constant_pool: &[PoolEntry], class_index: u16) -> (r: Option<String>)
    ensures
        r.is_some() == simple_class_name(constant_pool@, class_index as int).is_some(),
        r.is_some() ==> r.unwrap()@ == simple_class_name(constant_pool@, class_index as int).unwrap(),
{
    if class_index == 0 || class_index as usize >= constant_pool.len() {
        return None;
    }
    match &constant_pool[class_index as usize] {
        PoolEntry::Class { name_index } => match get_utf8(constant_pool, *name_index) {
            Some(full_name) => {
                let simple = last_segment_of(full_name);
                Some(replace_char_in(simple.as_str(), '$', '.'))
            },
            None => None,
        },
        _ => None,
    }
}

/// The simple name of a record's explicit superclass: none when it has no
/// superclass or extends the root type `java/lang/Object` or the enum base
/// type `java/lang/Enum`.
pub open spec fn superclass_name(rec: ClassRecord) -> Option<Seq<char>> {
    let index = rec.super_class as int;
    match class_entry_name(rec.constant_pool@, index) {
        Some(full) => if index == 0 || full == "java/lang/Object"@ || full == "java/lang/Enum"@ {
            None
        } else {
            simple_class_name(rec.constant_pool@, index)
        },
        None => None,
    }
}

/// The slash-separated name of the class entry at `index`.
fn class_name_at(constant_pool: &[PoolEntry], index: u16) -> (r: Option<&str>)
    ensures
        r.is_some() == class_entry_name(constant_pool@, index as int).is_some(),
        r.is_some() ==> r.unwrap()@ == class_entry_name(constant_pool@, index as int).unwrap(),
{
    if index as usize >= constant_pool.len() {
        return None;
    }
    match &constant_pool[index as usize] {
        PoolEntry::Class { name_index } => get_utf8(constant_pool, *name_index),
        _ => None,
    }
}

/// The simple name of the explicit superclass, if any.
pub fn get_superclass_name(class_file: &ClassRecord) -> (r: Option<String>)
    ensures
        r.is_some() == superclass_name(*class_file).is_some(),
        r.is_some() ==> r.unwrap()@ == superclass_name(*class_file).unwrap(),
{
    let pool = class_file.constant_pool.as_slice();
    if class_file.super_class == 0 {
        return None;
    }
    match class_name_at(pool, class_file.super_class) {
        Some(full) => if same_text(full, "java/lang/Object") || same_text(full, "java/lang/Enum") {
            None
        } else {
            get_class_name_from_index(pool, class_file.super_class)
        },
        None => None,
    }
}

/// The simple names of a record's interfaces that resolve, in order.
pub open spec fn interface_names(rec: ClassRecord) -> Seq<Seq<char>> {
    rec.interfaces@.filter_map(|i: u16| simple_class_name(rec.constant_pool@, i as int))
}

/// The simple names of the implemented interfaces.
pub fn get_interface_names(class_file: &ClassRecord) -> (r: Vec<String>)
    ensures
        r.deep_view() == interface_names(*class_file),
{
    let pool = class_file.constant_pool.as_slice();
    let mut names: Vec<String> = Vec::new();
    let mut i: usize = 0;
    while i < class_file.interfaces.len()
        invariant
            i <= class_file.interfaces@.len(),
            pool@ == class_file.constant_pool@,
            names.deep_view() == class_file.interfaces@.take(i as int).filter_map(
                |k: u16| simple_class_name(pool@, k as int),
            ),
        decreases class_file.interfaces@.len() - i,
    {
        let ghost before = names.deep_view();
        let index = class_file.interfaces[i];
        assert(class_file.interfaces@.take(i + 1).drop_last() =~= class_file.interfaces@.take(
            i as int,
        ));
        match get_class_name_from_index(pool, index) {
            Some(name) => {
                names.push(name);
                assert(names.deep_view() =~= before + seq![name@]);
            },
            None => {},
        }
        i += 1;
    }
    assert(class_file.interfaces@.take(i as int) =~= class_file.interfaces@);
    names
}

/// The visibility that access flags give: public, then private, then
/// protected, else package.
pub open spec fn visibility_of(flags: u16) -> Visibility {
    if flags & ACC_PUBLIC != 0 {
        Visibility::Public
    } else if flags & ACC_PRIVATE != 0 {
        Visibility::Private
    } else if flags & ACC_PROTECTED != 0 {
        Visibility::Protected
    } else {
        Visibility::Package
    }
}

/// The visibility of a field with these access flags.
pub fn field_visibility(flags: u16) -> (r: Visibility)
    ensures
        r == visibility_of(flags),
{
    if flags & ACC_PUBLIC != 0 {
        Visibility::Public
    } else if flags & ACC_PRIVATE != 0 {
        Visibility::Private
    } else if flags & ACC_PROTECTED != 0 {
        Visibility::Protected
    } else {
        Visibility::Package
    }
}

/// The visibility of a method with these access flags.
pub fn method_visibility(flags: u16) -> (r: Visibility)
    ensures
        r == visibility_of(flags),
{
    field_visibility(flags)
}

pub fn is_interface(class_file: &ClassRecord) -> (r: bool)
    ensures
        r == (class_file.access_flags & ACC_INTERFACE != 0),
{
    class_file.access_flags & ACC_INTERFACE != 0
}

/// Whether the record defines an annotation type.
pub fn is_annotation(class_file: &ClassRecord) -> (r: bool)
    ensures
        r == (class_file.access_flags & ACC_ANNOTATION != 0),
{
    class_file.access_flags & ACC_ANNOTATION != 0
}

pub fn is_enum(class_file: &ClassRecord) -> (r: bool)
    ensures
        r == (class_file.access_flags & ACC_ENUM != 0),
{
    class_file.access_flags & ACC_ENUM != 0
}

/// Whether the record defines an abstract class (an interface is not one).
pub fn is_abstract(class_file: &ClassRecord) -> (r: bool)
    ensures
        r == (class_file.access_flags & ACC_ABSTRACT != 0 && class_file.access_flags
            & ACC_INTERFACE == 0),
{
    class_file.access_flags & ACC_ABSTRACT != 0 && !is_interface(class_file)
}

/// Whether the record carries a record-components attribute.
pub fn is_record(class_file: &ClassRecord) -> (r: bool)
    ensures
        r == exists|i: int|
            0 <= i < class_file.attributes@.len() && class_file.attributes@[i] is Record,
{
    let mut i: usize = 0;
    while i < class_file.attributes.len()
        invariant
            i <= class_file.attributes@.len(),
            forall|j: int| 0 <= j < i ==> !(class_file.attributes@[j] is Record),
        decreases class_file.attributes@.len() - i,
    {
        if let AttributeInfo::Record = &class_file.attributes[i] {
            return true;
        }
        i += 1;
    }
    false
}

/// Whether the standard library counts `c` as numeric.
pub uninterp spec fn numeric(c: char) -> bool;

/// Relies on `char::is_numeric`: whether `c` is in one of Unicode's number
/// categories, which depends on `c` alone; the ASCII digits are numeric.
#[verifier::external_body]
fn is_numeric_char(c: char) -> (r: bool)
    ensures
        r == numeric(c),
        '0' <= c && c <= '9' ==> r,
{
    c.is_numeric()
}

/// The class name a class file's stem stands for: none for an anonymous
/// class (the part after its last `$` is all numeric); otherwise the stem
/// with each `$` of a nested class written as `.`.
pub open spec fn class_key(stem: Seq<char>) -> Option<Seq<char>> {
    let k = last_index_of(stem, '$');
    if k < 0 {
        Some(stem)
    } else if forall|j: int| k < j < stem.len() ==> numeric(#[trigger] stem[j]) {
        None
    } else {
        Some(replace_char(stem, '$', '.'))
    }
}

/// The class name for a class file with stem `file_stem`, or none when the
/// file holds an anonymous class.
pub fn class_name_of_file_stem(file_stem: &str) -> (r: Option<String>)
    ensures
        r.is_some() == class_key(file_stem@).is_some(),
        r.is_some() ==> r.unwrap()@ == class_key(file_stem@).unwrap(),
{
    let n = file_stem.unicode_len();
    let mut i = n;
    proof {
        crate::namespace::lemma_last_index_of(file_stem@, '$');
    }
    assert(file_stem@.subrange(0, n as int) =~= file_stem@);
    while i > 0 && file_stem.get_char(i - 1) != '$'
        invariant
            i <= n,
            n == file_stem@.len(),
            last_index_of(file_stem@, '$') == last_index_of(file_stem@.subrange(0, i as int), '$'),
        decreases i,
    {
        assert(file_stem@.subrange(0, i as int).drop_last() =~= file_stem@.subrange(0, i - 1));
        i -= 1;
    }
    if i == 0 {
        assert(last_index_of(file_stem@.subrange(0, 0), '$') == -1);
        return Some(String::from_str(file_stem));
    }
    assert(file_stem@.subrange(0, i as int).last() == '$');
    assert(last_index_of(file_stem@, '$') == i - 1);
    let mut j = i;
    while j < n
        invariant
            1 <= i <= j <= n,
            n == file_stem@.len(),
            last_index_of(file_stem@, '$') == i - 1,
            forall|q: int| i <= q < j ==> numeric(#[trigger] file_stem@[q]),
        decreases n - j,
    {
        if !is_numeric_char(file_stem.get_char(j)) {
            assert(!numeric(file_stem@[j as int]));
            return Some(replace_char_in(file_stem, '$', '.'));
        }
        j += 1;
    }
    None
}

/// The kind of class that access flags give: interface before enumeration
/// before abstract.
pub open spec fn kind_of(flags: u16) -> ClassKind {
    if flags & ACC_INTERFACE != 0 {
        ClassKind::Interface
    } else if flags & ACC_ENUM != 0 {
        ClassKind::Enumeration
    } else if flags & ACC_ABSTRACT != 0 {
        ClassKind::Abstract
    } else {
        ClassKind::Plain
    }
}

/// The qualified name of an annotation type from its stored descriptor: one
/// leading object marker `L` and one trailing `;` are dropped and `/` becomes
/// `.`, so `Lcom/example/Skip;` is `com.example.Skip`.
pub open spec fn annotation_name(stored: Seq<char>) -> Seq<char> {
    replace_char(drop_trailing(drop_leading(stored, 'L'), ';'), '/', '.')
}

/// The annotations an attribute holds (only the two annotation lists hold any).
pub open spec fn annotations_of(a: AttributeInfo) -> Seq<Annotation> {
    match a {
        AttributeInfo::VisibleAnnotations(v) => v@,
        AttributeInfo::InvisibleAnnotations(v) => v@,
        _ => Seq::empty(),
    }
}

/// All annotations of an attribute list, in order.
pub open spec fn annotations_in(attrs: Seq<AttributeInfo>) -> Seq<Annotation>
    decreases attrs.len(),
{
    if attrs.len() == 0 {
        Seq::empty()
    } else {
        annotations_in(attrs.drop_last()) + annotations_of(attrs.last())
    }
}

/// Whether annotation `a` is of the type with qualified name `target`.
pub open spec fn annotation_is(pool: Seq<PoolEntry>, a: Annotation, target: Seq<char>) -> bool {
    match utf8_at(pool, a.type_index as int) {
        Some(t) => annotation_name(t) == target,
        None => false,
    }
}

/// Whether an attribute list holds an annotation of type `target`.
pub open spec fn carries(pool: Seq<PoolEntry>, attrs: Seq<AttributeInfo>, target: Seq<char>) -> bool {
    exists|k: int|
        0 <= k < annotations_in(attrs).len() && annotation_is(pool, annotations_in(attrs)[k], target)
}

/// The characters of an optional string slice.
pub open spec fn opt_str(o: Option<&str>) -> Option<Seq<char>> {
    match o {
        Some(s) => Some(s@),
        None => None,
    }
}

/// Whether an attribute list holds an annotation of type `target`; no
/// target matches nothing.
pub open spec fn carries_opt(
    pool: Seq<PoolEntry>,
    attrs: Seq<AttributeInfo>,
    target: Option<Seq<char>>,
) -> bool {
    match target {
        Some(t) => carries(pool, attrs, t),
        None => false,
    }
}

/// The qualified name of the annotation type stored at `type_index`.
fn annotation_type_name(constant_pool: &[PoolEntry], type_index: u16) -> (r: Option<String>)
    ensures
        r.is_some() == utf8_at(constant_pool@, type_index as int).is_some(),
        r.is_some() ==> r.unwrap()@ == annotation_name(
            utf8_at(constant_pool@, type_index as int).unwrap(),
        ),
{
    match get_utf8(constant_pool, type_index) {
        Some(stored) => {
            let trimmed = strip_suffix_char(strip_prefix_char(stored, 'L'), ';');
            Some(replace_char_in(trimmed, '/', '.'))
        },
        None => None,
    }
}

/// Whether annotation `a` is of type `target`.
fn is_annotation_of(constant_pool: &[PoolEntry], a: &Annotation, target: &str) -> (r: bool)
    ensures
        r == annotation_is(constant_pool@, *a, target@),
{
    match annotation_type_name(constant_pool, a.type_index) {
        Some(name) => same_text(name.as_str(), target),
        None => false,
    }
}

proof fn lemma_annotations_step(attrs: Seq<AttributeInfo>, i: int)
    requires
        0 <= i < attrs.len(),
    ensures
        annotations_in(attrs.take(i + 1)) == annotations_in(attrs.take(i)) + annotations_of(
            attrs[i],
        ),
{
    assert(attrs.take(i + 1).drop_last() =~= attrs.take(i));
}

/// Finds the first annotation of type `target` in an attribute list: its
/// position among all the list's annotations.
fn find_annotation(constant_pool: &[PoolEntry], attributes: &[AttributeInfo], target: &str) -> (r:
    Option<(usize, usize)>)
    ensures
        match r {
            Some((i, j)) => {
                &&& i < attributes@.len()
                &&& j < annotations_of(attributes@[i as int]).len()
                &&& annotations_in(attributes@.take(i as int)).len() + j < annotations_in(
                    attributes@,
                ).len()
                &&& annotations_in(attributes@)[annotations_in(attributes@.take(i as int)).len()
                    + j] == annotations_of(attributes@[i as int])[j as int]
                &&& annotation_is(
                    constant_pool@,
                    annotations_of(attributes@[i as int])[j as int],
                    target@,
                )
                &&& forall|k: int|
                    0 <= k < annotations_in(attributes@.take(i as int)).len() + j ==> !annotation_is(
                        constant_pool@,
                        annotations_in(attributes@)[k],
                        target@,
                    )
            },
            None => !carries(constant_pool@, attributes@, target@),
        },
{
    let ghost pool = constant_pool@;
    let ghost attrs = attributes@;
    let mut i: usize = 0;
    while i < attributes.len()
        invariant
            i <= attrs.len(),
            attrs == attributes@,
            pool == constant_pool@,
            forall|k: int|
                0 <= k < annotations_in(attrs.take(i as int)).len() ==> !annotation_is(
                    pool,
                    annotations_in(attrs.take(i as int))[k],
                    target@,
                ),
        decreases attrs.len() - i,
    {
        proof {
            lemma_annotations_step(attrs, i as int);
            lemma_annotations_prefix(attrs, i + 1);
        }
        let list: &Vec<Annotation> = match &attributes[i] {
            AttributeInfo::VisibleAnnotations(v) => v,
            AttributeInfo::InvisibleAnnotations(v) => v,
            _ => {
                assert(annotations_in(attrs.take(i + 1)) =~= annotations_in(attrs.take(i as int)));
                i += 1;
                continue;
            },
        };
        assert(list@ == annotations_of(attrs[i as int]));
        let mut j: usize = 0;
        while j < list.len()
            invariant
                i < attrs.len(),
                attrs == attributes@,
                pool == constant_pool@,
                j <= list@.len(),
                list@ == annotations_of(attrs[i as int]),
                annotations_in(attrs.take(i + 1)) == annotations_in(attrs.take(i as int)) + list@,
                annotations_in(attrs.take(i + 1)).len() <= annotations_in(attrs).len(),
                forall|k: int|
                    0 <= k < annotations_in(attrs.take(i + 1)).len() ==> annotations_in(attrs)[k]
                        == annotations_in(attrs.take(i + 1))[k],
                forall|k: int|
                    0 <= k < annotations_in(attrs.take(i as int)).len() ==> !annotation_is(
                        pool,
                        annotations_in(attrs.take(i as int))[k],
                        target@,
                    ),
                forall|k: int| 0 <= k < j ==> !annotation_is(pool, list@[k], target@),
            decreases list@.len() - j,
        {
            if is_annotation_of(constant_pool, &list[j], target) {
                let ghost base = annotations_in(attrs.take(i as int));
                assert(annotations_in(attrs.take(i + 1))[base.len() + j] == list@[j as int]);
                assert forall|k: int| 0 <= k < base.len() + j implies !annotation_is(
                    pool,
                    annotations_in(attrs)[k],
                    target@,
                ) by {
                    assert(annotations_in(attrs)[k] == annotations_in(attrs.take(i + 1))[k]);
                    if k < base.len() {
                        assert(annotations_in(attrs.take(i + 1))[k] == base[k]);
                    } else {
                        assert(annotations_in(attrs.take(i + 1))[k] == list@[k - base.len()]);
                    }
                }
                return Some((i, j));
            }
            j += 1;
        }
        assert forall|k: int| 0 <= k < annotations_in(attrs.take(i + 1)).len() implies !annotation_is(
            pool,
            #[trigger] annotations_in(attrs.take(i + 1))[k],
            target@,
        ) by {
            let base = annotations_in(attrs.take(i as int));
            if k >= base.len() {
                assert(annotations_in(attrs.take(i + 1))[k] == list@[k - base.len()]);
            }
        }
        i += 1;
    }
    assert(attrs.take(i as int) =~= attrs);
    None
}

proof fn lemma_annotations_prefix(attrs: Seq<AttributeInfo>, i: int)
    requires
        0 <= i <= attrs.len(),
    ensures
        annotations_in(attrs.take(i)).len() <= annotations_in(attrs).len(),
        forall|k: int|
            0 <= k < annotations_in(attrs.take(i)).len() ==> annotations_in(attrs)[k]
                == annotations_in(attrs.take(i))[k],
    decreases attrs.len() - i,
{
    if i < attrs.len() {
        lemma_annotations_prefix(attrs, i + 1);
        lemma_annotations_step(attrs, i);
    } else {
        assert(attrs.take(i) =~= attrs);
    }
}

/// Whether an attribute list holds an annotation of type `skip_annotation`
/// (a qualified name such as `com.example.Skip`); no name matches nothing.
pub fn has_annotation(
    constant_pool: &[PoolEntry],
    attributes: &[AttributeInfo],
    skip_annotation: Option<&str>,
) -> (r: bool)
    ensures
        r == carries_opt(constant_pool@, attributes@, opt_str(skip_annotation)),
{
    match skip_annotation {
        Some(target) => match find_annotation(constant_pool, attributes, target) {
            Some(_) => true,
            None => false,
        },
        None => false,
    }
}

/// The text of a constant element value: a string, or a number's decimal
/// rendering; other values have none.
pub open spec fn element_text(pool: Seq<PoolEntry>, v: ElementValue) -> Option<Seq<char>> {
    match v {
        ElementValue::Const { const_value_index } => {
            let i = const_value_index as int;
            if i < pool.len() {
                match pool[i] {
                    PoolEntry::Utf8(s) => Some(s@),
                    PoolEntry::Number(s) => Some(s@),
                    PoolEntry::Text { string_index } => utf8_at(pool, string_index as int),
                    _ => None,
                }
            } else {
                None
            }
        },
        ElementValue::Other => None,
    }
}

/// The text of an element value, if it is a constant.
fn get_element_value_as_string(constant_pool: &[PoolEntry], element_value: &ElementValue) -> (r:
    Option<String>)
    ensures
        r.is_some() == element_text(constant_pool@, *element_value).is_some(),
        r.is_some() ==> r.unwrap()@ == element_text(constant_pool@, *element_value).unwrap(),
{
    match element_value {
        ElementValue::Const { const_value_index } => {
            let i = *const_value_index as usize;
            if i < constant_pool.len() {
                match &constant_pool[i] {
                    PoolEntry::Utf8(value) => Some(value.clone()),
                    PoolEntry::Number(value) => Some(value.clone()),
                    PoolEntry::Text { string_index } => match get_utf8(
                        constant_pool,
                        *string_index,
                    ) {
                        Some(text) => Some(String::from_str(text)),
                        None => None,
                    },
                    _ => None,
                }
            } else {
                None
            }
        },
        ElementValue::Other => None,
    }
}

/// The value given to element `name` in `pairs`: the last pair of that name
/// whose value is a constant; `default` when there is none.
pub open spec fn element_param(
    pool: Seq<PoolEntry>,
    pairs: Seq<ElementValuePair>,
    name: Seq<char>,
    default: Seq<char>,
) -> Seq<char>
    decreases pairs.len(),
{
    if pairs.len() == 0 {
        default
    } else {
        let p = pairs.last();
        if utf8_at(pool, p.element_name_index as int) == Some(name) && element_text(
            pool,
            p.value,
        ).is_some() {
            element_text(pool, p.value).unwrap()
        } else {
            element_param(pool, pairs.drop_last(), name, default)
        }
    }
}

/// The relationship parameters of an annotation: its `selfCard` (default
/// `1`), `label` (default empty) and `otherCard` (default `1`).
pub open spec fn annotation_params(pool: Seq<PoolEntry>, a: Annotation) -> (
    Seq<char>,
    Seq<char>,
    Seq<char>,
) {
    (
        element_param(pool, a.element_value_pairs@, "selfCard"@, "1"@),
        element_param(pool, a.element_value_pairs@, "label"@, Seq::empty()),
        element_param(pool, a.element_value_pairs@, "otherCard"@, "1"@),
    )
}

/// Whether `k` is the position of the first annotation of type `target`.
pub open spec fn is_first_match(
    pool: Seq<PoolEntry>,
    anns: Seq<Annotation>,
    target: Seq<char>,
    k: int,
) -> bool {
    &&& 0 <= k < anns.len()
    &&& annotation_is(pool, anns[k], target)
    &&& forall|m: int| 0 <= m < k ==> !annotation_is(pool, anns[m], target)
}

/// The parameters of the first annotation of type `target` in an attribute
/// list; none when it holds no such annotation or there is no target.
pub open spec fn relationship_params(
    pool: Seq<PoolEntry>,
    attrs: Seq<AttributeInfo>,
    target: Option<Seq<char>>,
) -> Option<(Seq<char>, Seq<char>, Seq<char>)> {
    match target {
        Some(t) => if carries(pool, attrs, t) {
            let k = choose|k: int| is_first_match(pool, annotations_in(attrs), t, k);
            Some(annotation_params(pool, annotations_in(attrs)[k]))
        } else {
            None
        },
        None => None,
    }
}

/// The plain values of an optional triple of strings.
pub open spec fn triple_view(r: Option<(String, String, String)>) -> Option<
    (Seq<char>, Seq<char>, Seq<char>),
> {
    match r {
        Some((a, b, c)) => Some((a@, b@, c@)),
        None => None,
    }
}

/// Reads the relationship parameters of annotation `a`.
fn read_params(constant_pool: &[PoolEntry], a: &Annotation) -> (r: (String, String, String))
    ensures
        (r.0@, r.1@, r.2@) == annotation_params(constant_pool@, *a),
{
    let ghost pairs = a.element_value_pairs@;
    let mut self_card = String::from_str("1");
    let mut label = String::new();
    let mut other_card = String::from_str("1");
    let mut i: usize = 0;
    while i < a.element_value_pairs.len()
        invariant
            i <= pairs.len(),
            pairs == a.element_value_pairs@,
            self_card@ == element_param(constant_pool@, pairs.take(i as int), "selfCard"@, "1"@),
            label@ == element_param(constant_pool@, pairs.take(i as int), "label"@, Seq::empty()),
            other_card@ == element_param(constant_pool@, pairs.take(i as int), "otherCard"@, "1"@),
        decreases pairs.len() - i,
    {
        let pair = &a.element_value_pairs[i];
        assert(pairs.take(i + 1).drop_last() =~= pairs.take(i as int));
        assert(pairs.take(i + 1).last() == pairs[i as int]);
        match get_utf8(constant_pool, pair.element_name_index) {
            Some(param_name) => match get_element_value_as_string(constant_pool, &pair.value) {
                Some(value) => {
                    if same_text(param_name, "selfCard") {
                        self_card = value.clone();
                    }
                    if same_text(param_name, "label") {
                        label = value.clone();
                    }
                    if same_text(param_name, "otherCard") {
                        other_card = value;
                    }
                },
                None => {},
            },
            None => {},
        }
        i += 1;
    }
    assert(pairs.take(i as int) =~= pairs);
    (self_card, label, other_card)
}

/// The parameters `(selfCard, label, otherCard)` of the first annotation of
/// type `target_annotation` in an attribute list, if it holds one.
pub fn get_annotation_params(
    constant_pool: &[PoolEntry],
    attributes: &[AttributeInfo],
    target_annotation: Option<&str>,
) -> (r: Option<(String, String, String)>)
    ensures
        triple_view(r) == relationship_params(
            constant_pool@,
            attributes@,
            opt_str(target_annotation),
        ),
{
    let target = match target_annotation {
        Some(t) => t,
        None => return None,
    };
    match find_annotation(constant_pool, attributes, target) {
        Some((i, j)) => {
            let ghost anns = annotations_in(attributes@);
            let ghost k0 = annotations_in(attributes@.take(i as int)).len() + j;
            let a = &match &attributes[i] {
                AttributeInfo::VisibleAnnotations(v) => v,
                AttributeInfo::InvisibleAnnotations(v) => v,
                _ => {
                    assert(false);
                    return None;
                },
            }[j];
            assert(*a == anns[k0]);
            let params = read_params(constant_pool, a);
            proof {
                assert(is_first_match(constant_pool@, anns, target@, k0));
                let k = choose|k: int| is_first_match(constant_pool@, anns, target@, k);
                assert(k == k0) by {
                    if k < k0 {
                        assert(!annotation_is(constant_pool@, anns[k], target@));
                    } else if k > k0 {
                        assert(!annotation_is(constant_pool@, anns[k0], target@));
                    }
                }
            }
            Some(params)
        },
        None => None,
    }
}

/// The positional name of parameter `i`: `arg` and its number.
pub open spec fn positional_name(i: nat) -> Seq<char> {
    "arg"@ + decimal(i)
}

/// The positional name of parameter `i`.
fn arg_name(i: usize) -> (r: String)
    ensures
        r@ == positional_name(i as nat),
{
    let mut s = String::from_str("arg");
    push_decimal(&mut s, i);
    s
}

/// Index of the first parameter-name table at or after `i` whose entry count
/// is `count`, or the length of the list.
pub open spec fn name_table_from(attrs: Seq<AttributeInfo>, count: nat, i: int) -> int
    decreases attrs.len() - i,
{
    if i < 0 || i >= attrs.len() {
        attrs.len() as int
    } else {
        match attrs[i] {
            AttributeInfo::MethodParameters(v) => if v@.len() == count {
                i
            } else {
                name_table_from(attrs, count, i + 1)
            },
            _ => name_table_from(attrs, count, i + 1),
        }
    }
}

/// The name of parameter `i` from table entry `name_index`: its text, or the
/// positional name when the entry is 0 or not a UTF-8 entry.
pub open spec fn table_param_name(pool: Seq<PoolEntry>, name_index: u16, i: nat) -> Seq<char> {
    match utf8_at(pool, name_index as int) {
        Some(n) => n,
        None => positional_name(i),
    }
}

/// The names of a method's `count` parameters: from the first name table
/// with exactly `count` entries, else positional.
pub open spec fn parameter_names(
    pool: Seq<PoolEntry>,
    attrs: Seq<AttributeInfo>,
    count: nat,
) -> Seq<Seq<char>> {
    let t = name_table_from(attrs, count, 0);
    if t < attrs.len() {
        match attrs[t] {
            AttributeInfo::MethodParameters(v) => Seq::new(
                count,
                |i: int| table_param_name(pool, v@[i], i as nat),
            ),
            _ => Seq::new(count, |i: int| positional_name(i as nat)),
        }
    } else {
        Seq::new(count, |i: int| positional_name(i as nat))
    }
}

/// The names of a method's `param_count` parameters.
pub fn extract_parameter_names(
    constant_pool: &[PoolEntry],
    attributes: &[AttributeInfo],
    param_count: usize,
) -> (r: Vec<String>)
    ensures
        r.deep_view() == parameter_names(constant_pool@, attributes@, param_count as nat),
{
    let mut t: usize = 0;
    while t < attributes.len()
        invariant
            t <= attributes@.len(),
            name_table_from(attributes@, param_count as nat, 0) == name_table_from(
                attributes@,
                param_count as nat,
                t as int,
            ),
        decreases attributes@.len() - t,
    {
        if let AttributeInfo::MethodParameters(parameters) = &attributes[t] {
            if parameters.len() == param_count {
                let mut names: Vec<String> = Vec::new();
                let mut i: usize = 0;
                while i < param_count
                    invariant
                        i <= param_count,
                        parameters@.len() == param_count,
                        names.deep_view().len() == i,
                        forall|k: int|
                            0 <= k < i ==> names.deep_view()[k] == table_param_name(
                                constant_pool@,
                                parameters@[k],
                                k as nat,
                            ),
                    decreases param_count - i,
                {
                    let name = match get_utf8(constant_pool, parameters[i]) {
                        Some(n) => String::from_str(n),
                        None => arg_name(i),
                    };
                    let ghost before = names.deep_view();
                    names.push(name);
                    assert(names.deep_view() =~= before.push(name@));
                    i += 1;
                }
                assert(names.deep_view() =~= parameter_names(
                    constant_pool@,
                    attributes@,
                    param_count as nat,
                ));
                return names;
            }
        }
        t += 1;
    }
    let mut names: Vec<String> = Vec::new();
    let mut i: usize = 0;
    while i < param_count
        invariant
            i <= param_count,
            names.deep_view().len() == i,
            forall|k: int| 0 <= k < i ==> names.deep_view()[k] == positional_name(k as nat),
        decreases param_count - i,
    {
        let name = arg_name(i);
        let ghost before = names.deep_view();
        names.push(name);
        assert(names.deep_view() =~= before.push(name@));
        i += 1;
    }
    assert(names.deep_view() =~= parameter_names(constant_pool@, attributes@, param_count as nat));
    names
}

/// The text of the UTF-8 entry at `index`, or `default`.
pub open spec fn utf8_or(pool: Seq<PoolEntry>, index: u16, default: Seq<char>) -> Seq<char> {
    match utf8_at(pool, index as int) {
        Some(s) => s,
        None => default,
    }
}

/// The plain values of a list of optional names.
pub open spec fn names_view(names: Seq<Option<&str>>) -> Seq<Option<Seq<char>>> {
    names.map_values(|o: Option<&str>| opt_str(o))
}

/// Whether an attribute list holds an annotation of one of the types `targets`.
pub open spec fn carries_any(
    pool: Seq<PoolEntry>,
    attrs: Seq<AttributeInfo>,
    targets: Seq<Option<Seq<char>>>,
) -> bool {
    exists|r: int| 0 <= r < targets.len() && carries_opt(pool, attrs, targets[r])
}

/// The attribute that field `f` shows in the class model: none when it
/// carries the suppression annotation or a relationship annotation. An enum
/// constant (typed by its own class) shows no visibility, no type, and is
/// never static. `$` is trimmed from both ends of the name.
pub open spec fn field_member(
    rec: ClassRecord,
    class_name: Seq<char>,
    skip: Option<Seq<char>>,
    rels: Seq<Option<Seq<char>>>,
    f: MemberInfo,
) -> Option<MemberView> {
    let pool = rec.constant_pool@;
    if carries_opt(pool, f.attributes@, skip) || carries_any(pool, f.attributes@, rels) {
        None
    } else {
        let name = trim_both(utf8_or(pool, f.name_index, "unknown"@), '$');
        let t = field_type(utf8_or(pool, f.descriptor_index, Seq::empty()));
        let enum_constant = rec.access_flags & ACC_ENUM != 0 && t == class_name;
        Some(
            MemberView::Attribute {
                visibility: if enum_constant {
                    Visibility::Unspecified
                } else {
                    visibility_of(f.access_flags)
                },
                name: name,
                data_type: if enum_constant {
                    None
                } else {
                    Some(t)
                },
                is_static: !enum_constant && f.access_flags & ACC_STATIC != 0,
            },
        )
    }
}

/// Whether a method name is left out of the class model: constructors,
/// static initializers and compiler-generated lambda bodies.
pub open spec fn is_hidden_method(name: Seq<char>) -> bool {
    name == "<init>"@ || name == "<clinit>"@ || has_prefix(name, "lambda$"@)
}

/// The method that `m` shows in the class model: none when it carries the
/// suppression annotation or is hidden. A `void` return shows no type.
pub open spec fn method_member(rec: ClassRecord, skip: Option<Seq<char>>, m: MemberInfo) -> Option<
    MemberView,
> {
    let pool = rec.constant_pool@;
    let raw_name = utf8_or(pool, m.name_index, "unknown"@);
    if carries_opt(pool, m.attributes@, skip) || is_hidden_method(raw_name) {
        None
    } else {
        let sig = method_signature(utf8_or(pool, m.descriptor_index, Seq::empty()));
        let names = parameter_names(pool, m.attributes@, sig.0.len());
        Some(
            MemberView::Method {
                visibility: visibility_of(m.access_flags),
                name: trim_both(raw_name, '$'),
                parameters: Seq::new(sig.0.len(), |i: int| (names[i], Some(sig.0[i]))),
                return_type: if sig.1 == "void"@ {
                    None
                } else {
                    Some(sig.1)
                },
                is_static: m.access_flags & ACC_STATIC != 0,
                is_abstract: m.access_flags & ACC_ABSTRACT != 0,
            },
        )
    }
}

/// The members of the class model of `rec`: its shown fields, then its shown
/// methods, each in record order.
pub open spec fn class_members(
    rec: ClassRecord,
    class_name: Seq<char>,
    skip: Option<Seq<char>>,
    rels: Seq<Option<Seq<char>>>,
) -> Seq<MemberView> {
    rec.fields@.filter_map(|f: MemberInfo| field_member(rec, class_name, skip, rels, f))
        + rec.methods@.filter_map(|m: MemberInfo| method_member(rec, skip, m))
}

/// The text of the UTF-8 entry at `index`, or `default`.
pub(crate) fn get_utf8_or<'a>(constant_pool: &'a [PoolEntry], index: u16, default: &'a str) -> (r: &'a str)
    ensures
        r@ == utf8_or(constant_pool@, index, default@),
{
    match get_utf8(constant_pool, index) {
        Some(s) => s,
        None => default,
    }
}

/// Whether an attribute list holds one of the annotations `targets`.
fn has_any_annotation(
    constant_pool: &[PoolEntry],
    attributes: &[AttributeInfo],
    targets: &[Option<&str>],
) -> (r: bool)
    ensures
        r == carries_any(constant_pool@, attributes@, names_view(targets@)),
{
    let mut i: usize = 0;
    while i < targets.len()
        invariant
            i <= targets@.len(),
            forall|k: int|
                0 <= k < i ==> !carries_opt(constant_pool@, attributes@, names_view(targets@)[k]),
        decreases targets@.len() - i,
    {
        if has_annotation(constant_pool, attributes, targets[i]) {
            assert(names_view(targets@)[i as int] == opt_str(targets@[i as int]));
            return true;
        }
        i += 1;
    }
    false
}

/// Builds the attribute shown for field `f`, if any.
fn field_to_member(
    class_file: &ClassRecord,
    class_name: &str,
    skip_annotation: Option<&str>,
    relationship_annotations: &[Option<&str>],
    f: &MemberInfo,
) -> (r: Option<Member>)
    ensures
        match r {
            Some(m) => field_member(
                *class_file,
                class_name@,
                opt_str(skip_annotation),
                names_view(relationship_annotations@),
                *f,
            ) == Some(m@),
            None => field_member(
                *class_file,
                class_name@,
                opt_str(skip_annotation),
                names_view(relationship_annotations@),
                *f,
            ).is_none(),
        },
{
    let pool = class_file.constant_pool.as_slice();
    if has_annotation(pool, f.attributes.as_slice(), skip_annotation) {
        return None;
    }
    if has_any_annotation(pool, f.attributes.as_slice(), relationship_annotations) {
        return None;
    }
    let name = get_utf8_or(pool, f.name_index, "unknown");
    proof {
        reveal_strlit("");
    }
    let descriptor = get_utf8_or(pool, f.descriptor_index, "");
    let data_type = parse_field_descriptor(descriptor);
    let clean_name = String::from_str(trim_char(name, '$'));
    let enum_constant = is_enum(class_file) && same_text(data_type.as_str(), class_name);
    Some(
        Member::Attribute(
            Attribute {
                visibility: if enum_constant {
                    Visibility::Unspecified
                } else {
                    field_visibility(f.access_flags)
                },
                name: clean_name,
                data_type: if enum_constant {
                    None
                } else {
                    Some(data_type)
                },
                is_static: !enum_constant && f.access_flags & ACC_STATIC != 0,
            },
        ),
    )
}

/// Builds the method shown for `m`, if any.
fn method_to_member(class_file: &ClassRecord, skip_annotation: Option<&str>, m: &MemberInfo) -> (r:
    Option<Member>)
    ensures
        match r {
            Some(x) => method_member(*class_file, opt_str(skip_annotation), *m) == Some(x@),
            None => method_member(*class_file, opt_str(skip_annotation), *m).is_none(),
        },
{
    let pool = class_file.constant_pool.as_slice();
    if has_annotation(pool, m.attributes.as_slice(), skip_annotation) {
        return None;
    }
    let name = get_utf8_or(pool, m.name_index, "unknown");
    if same_text(name, "<init>") || same_text(name, "<clinit>") || starts_with_text(name, "lambda$") {
        return None;
    }
    proof {
        reveal_strlit("");
    }
    let descriptor = get_utf8_or(pool, m.descriptor_index, "");
    let (param_types, return_type) = parse_method_descriptor(descriptor);
    let param_names = extract_parameter_names(pool, m.attributes.as_slice(), param_types.len());
    let ghost sig = method_signature(descriptor@);
    let ghost names = parameter_names(pool@, m.attributes@, sig.0.len());
    let mut parameters: Vec<Parameter> = Vec::new();
    let mut i: usize = 0;
    while i < param_types.len()
        invariant
            i <= param_types@.len(),
            param_types.deep_view() == sig.0,
            param_names.deep_view() == names,
            names.len() == sig.0.len(),
            parameters@.len() == i,
            forall|k: int|
                0 <= k < i ==> crate::diagram::parameter_view(#[trigger] parameters@[k]) == (
                    names[k],
                    Some(sig.0[k]),
                ),
        decreases param_types@.len() - i,
    {
        assert(param_names.deep_view()[i as int] == param_names@[i as int]@);
        assert(param_types.deep_view()[i as int] == param_types@[i as int]@);
        let p = Parameter {
            name: param_names[i].clone(),
            data_type: Some(param_types[i].clone()),
        };
        parameters.push(p);
        i += 1;
    }
    let return_type = if same_text(return_type.as_str(), "void") {
        None
    } else {
        Some(return_type)
    };
    let r = Member::Method(
        Method {
            visibility: method_visibility(m.access_flags),
            name: String::from_str(trim_char(name, '$')),
            parameters,
            return_type,
            is_static: m.access_flags & ACC_STATIC != 0,
            is_abstract: m.access_flags & ACC_ABSTRACT != 0,
        },
    );
    assert(parameters@.map_values(|p: Parameter| crate::diagram::parameter_view(p)) =~= Seq::new(
        sig.0.len(),
        |k: int| (names[k], Some(sig.0[k])),
    ));
    Some(r)
}

/// The kind of class a record defines.
fn class_kind(class_file: &ClassRecord) -> (r: ClassKind)
    ensures
        r == kind_of(class_file.access_flags),
{
    if is_interface(class_file) {
        ClassKind::Interface
    } else if is_enum(class_file) {
        ClassKind::Enumeration
    } else if is_abstract(class_file) {
        ClassKind::Abstract
    } else {
        ClassKind::Plain
    }
}

/// Builds the class model of a record under the name `class_name`, leaving
/// out members that carry `skip_annotation` and fields that carry one of
/// `relationship_annotations`.
pub fn classfile_to_mermaid_class(
    class_file: &ClassRecord,
    class_name: &str,
    skip_annotation: Option<&str>,
    relationship_annotations: &[Option<&str>],
) -> (r: Class)
    ensures
        r.name@ == class_name@,
        r.kind == kind_of(class_file.access_flags),
        members_view(r.members@) == class_members(
            *class_file,
            class_name@,
            opt_str(skip_annotation),
            names_view(relationship_annotations@),
        ),
{
    let ghost rec = *class_file;
    let ghost skip = opt_str(skip_annotation);
    let ghost rels = names_view(relationship_annotations@);
    let ghost ff = |f: MemberInfo| field_member(rec, class_name@, skip, rels, f);
    let ghost mf = |m: MemberInfo| method_member(rec, skip, m);
    let mut members: Vec<Member> = Vec::new();
    let mut i: usize = 0;
    while i < class_file.fields.len()
        invariant
            i <= class_file.fields@.len(),
            rec == *class_file,
            skip == opt_str(skip_annotation),
            rels == names_view(relationship_annotations@),
            ff == (|f: MemberInfo| field_member(rec, class_name@, skip, rels, f)),
            members_view(members@) == class_file.fields@.take(i as int).filter_map(ff),
        decreases class_file.fields@.len() - i,
    {
        let ghost before = members@;
        assert(class_file.fields@.take(i + 1).drop_last() =~= class_file.fields@.take(i as int));
        match field_to_member(
            class_file,
            class_name,
            skip_annotation,
            relationship_annotations,
            &class_file.fields[i],
        ) {
            Some(m) => {
                members.push(m);
                assert(members_view(members@) =~= members_view(before) + seq![m@]);
            },
            None => {},
        }
        i += 1;
    }
    assert(class_file.fields@.take(i as int) =~= class_file.fields@);
    let ghost field_part = members_view(members@);
    let mut j: usize = 0;
    while j < class_file.methods.len()
        invariant
            j <= class_file.methods@.len(),
            rec == *class_file,
            skip == opt_str(skip_annotation),
            mf == (|m: MemberInfo| method_member(rec, skip, m)),
            members_view(members@) == field_part + class_file.methods@.take(j as int).filter_map(mf),
        decreases class_file.methods@.len() - j,
    {
        let ghost before = members@;
        assert(class_file.methods@.take(j + 1).drop_last() =~= class_file.methods@.take(j as int));
        match method_to_member(class_file, skip_annotation, &class_file.methods[j]) {
            Some(m) => {
                members.push(m);
                assert(members_view(members@) =~= members_view(before) + seq![m@]);
            },
            None => {},
        }
        j += 1;
    }
    assert(class_file.methods@.take(j as int) =~= class_file.methods@);
    Class { name: String::from_str(class_name), kind: class_kind(class_file), members }
}

proof fn lemma_filter_map_origin<A, B>(s: Seq<A>, f: spec_fn(A) -> Option<B>, m: int)
    requires
        0 <= m < s.filter_map(f).len(),
    ensures
        exists|i: int| 0 <= i < s.len() && f(s[i]) == Some(s.filter_map(f)[m]),
    decreases s.len(),
{
    let rest = s.drop_last();
    if m < rest.filter_map(f).len() {
        lemma_filter_map_origin(rest, f, m);
        let i = choose|i: int| 0 <= i < rest.len() && f(rest[i]) == Some(rest.filter_map(f)[m]);
        assert(s[i] == rest[i]);
        match f(s.last()) {
            Some(x) => assert(s.filter_map(f)[m] == rest.filter_map(f)[m]),
            None => {},
        }
    } else {
        assert(f(s[s.len() - 1]) == Some(s.filter_map(f)[m]));
    }
}

/// Every attribute of a class model stems from a field that carries neither
/// the suppression annotation nor any relationship annotation: such fields
/// never show as attributes.
pub proof fn lemma_attributes_from_unmarked_fields(
    rec: ClassRecord,
    class_name: Seq<char>,
    skip: Option<Seq<char>>,
    rels: Seq<Option<Seq<char>>>,
    m: int,
)
    requires
        0 <= m < class_members(rec, class_name, skip, rels).len(),
        class_members(rec, class_name, skip, rels)[m] is Attribute,
    ensures
        exists|i: int|
            0 <= i < rec.fields@.len() && !carries_opt(
                rec.constant_pool@,
                rec.fields@[i].attributes@,
                skip,
            ) && !carries_any(rec.constant_pool@, rec.fields@[i].attributes@, rels) && field_member(
                rec,
                class_name,
                skip,
                rels,
                rec.fields@[i],
            ) == Some(class_members(rec, class_name, skip, rels)[m]),
{
    let ff = |f: MemberInfo| field_member(rec, class_name, skip, rels, f);
    let mf = |x: MemberInfo| method_member(rec, skip, x);
    let fs = rec.fields@.filter_map(ff);
    let ms = rec.methods@.filter_map(mf);
    let all = class_members(rec, class_name, skip, rels);
    assert(all == fs + ms);
    if m < fs.len() {
        assert(all[m] == fs[m]);
        lemma_filter_map_origin(rec.fields@, ff, m);
    } else {
        assert(all[m] == ms[m - fs.len()]);
        lemma_filter_map_origin(rec.methods@, mf, m - fs.len());
        let j = choose|j: int| 0 <= j < rec.methods@.len() && mf(rec.methods@[j]) == Some(ms[m - fs.len()]);
        assert(method_member(rec, skip, rec.methods@[j]) == Some(all[m]));
        assert(false);
    }
}

} // verus!
