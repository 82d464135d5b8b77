//! The class diagram document: front-matter directives, namespaces of
//! classes, and relations between classes.

use vstd::prelude::*;
use vstd::string::*;
use crate::text::{has_prefix, starts_with_text};

verus! {

/// The characters of an optional string.
pub open spec fn opt_text(o: Option<String>) -> Option<Seq<char>> {
    match o {
        Some(s) => Some(s@),
        None => None,
    }
}

/// Visibility of a member, drawn as a one-character glyph.
#[derive(Clone, Copy, Debug, PartialEq, Eq, Structural)]
pub enum Visibility {
    Public,
    Private,
    Protected,
    Package,
    Unspecified,
}

/// The kind of a class, drawn as an annotation above its members.
#[derive(Clone, Copy, Debug, PartialEq, Eq, Structural)]
pub enum ClassKind {
    Plain,
    Interface,
    Enumeration,
    Abstract,
}

/// A method parameter; a positional name (`arg0`, `arg1`, ...) stands for an
/// unknown one.
#[derive(Clone, Debug)]
pub struct Parameter {
    pub name: String,
    pub data_type: Option<String>,
}

/// A field of a class.
#[derive(Clone, Debug)]
pub struct Attribute {
    pub visibility: Visibility,
    pub name: String,
    pub data_type: Option<String>,
    pub is_static: bool,
}

/// A method of a class; `return_type` is `None` for `void`.
#[derive(Clone, Debug)]
pub struct Method {
    pub visibility: Visibility,
    pub name: String,
    pub parameters: Vec<Parameter>,
    pub return_type: Option<String>,
    pub is_static: bool,
    pub is_abstract: bool,
}

#[derive(Clone, Debug)]
pub enum Member {
    Attribute(Attribute),
    Method(Method),
}

/// A member as plain values.
pub enum MemberView {
    Attribute {
        visibility: Visibility,
        name: Seq<char>,
        data_type: Option<Seq<char>>,
        is_static: bool,
    },
    Method {
        visibility: Visibility,
        name: Seq<char>,
        parameters: Seq<(Seq<char>, Option<Seq<char>>)>,
        return_type: Option<Seq<char>>,
        is_static: bool,
        is_abstract: bool,
    },
}

/// A parameter as its name and type.
pub open spec fn parameter_view(p: Parameter) -> (Seq<char>, Option<Seq<char>>) {
    (p.name@, opt_text(p.data_type))
}

impl View for Member {
    type V = MemberView;

    open spec fn view(&self) -> MemberView {
        match self {
            Member::Attribute(a) => MemberView::Attribute {
                visibility: a.visibility,
                name: a.name@,
                data_type: opt_text(a.data_type),
                is_static: a.is_static,
            },
            Member::Method(m) => MemberView::Method {
                visibility: m.visibility,
                name: m.name@,
                parameters: m.parameters@.map_values(|p: Parameter| parameter_view(p)),
                return_type: opt_text(m.return_type),
                is_static: m.is_static,
                is_abstract: m.is_abstract,
            },
        }
    }
}

/// A class of the diagram with its members in order.
#[derive(Clone, Debug)]
pub struct Class {
    pub name: String,
    pub kind: ClassKind,
    pub members: Vec<Member>,
}

/// The members of a class as plain values.
pub open spec fn members_view(ms: Seq<Member>) -> Seq<MemberView> {
    ms.map_values(|m: Member| m@)
}

/// A named group of classes; the empty name is the default namespace.
#[derive(Clone, Debug)]
pub struct Namespace {
    pub name: String,
    pub classes: Vec<Class>,
}

/// The kind of a relation; each kind has its own arrow, and so its own line
/// (dashed for realization, dependency and dashed link, solid otherwise).
#[derive(Clone, Copy, Debug, PartialEq, Eq, Structural)]
pub enum RelationKind {
    Inheritance,
    Realization,
    Aggregation,
    Composition,
    Association,
    Dependency,
    Link,
    DashedLink,
}

/// A relation drawn from `tail` to `head`.
#[derive(Clone, Debug)]
pub struct Relation {
    pub tail: String,
    pub head: String,
    pub kind: RelationKind,
    pub cardinality_tail: Option<String>,
    pub cardinality_head: Option<String>,
    pub label: Option<String>,
}

/// A relation as plain values.
pub struct RelationView {
    pub tail: Seq<char>,
    pub head: Seq<char>,
    pub kind: RelationKind,
    pub cardinality_tail: Option<Seq<char>>,
    pub cardinality_head: Option<Seq<char>>,
    pub label: Option<Seq<char>>,
}

impl View for Relation {
    type V = RelationView;

    open spec fn view(&self) -> RelationView {
        RelationView {
            tail: self.tail@,
            head: self.head@,
            kind: self.kind,
            cardinality_tail: opt_text(self.cardinality_tail),
            cardinality_head: opt_text(self.cardinality_head),
            label: opt_text(self.label),
        }
    }
}

/// The relations of a document as plain values.
pub open spec fn relations_view(rs: Seq<Relation>) -> Seq<RelationView> {
    rs.map_values(|r: Relation| r@)
}

/// One entry of the `select` directive; only `field: package` entries with a
/// `pattern` take part in matching.
#[derive(Clone, Debug)]
pub struct SelectFilter {
    pub field: Option<String>,
    pub pattern: Option<String>,
}

/// The `select` directive of the front matter.
#[derive(Clone, Debug)]
pub enum Selection {
    /// No directive: every class is included.
    Absent,
    /// A directive that is not a list: no class is included.
    Invalid,
    /// A list of filters: a class is included when one of them matches.
    Filters(Vec<SelectFilter>),
}

/// The front matter of a document: its text, kept verbatim, and the two
/// directives read from it.
#[derive(Clone, Debug)]
pub struct FrontMatter {
    pub text: String,
    pub group_package: Option<bool>,
    pub select: Selection,
}

/// A class diagram document.
#[derive(Clone, Debug)]
pub struct Diagram {
    pub front_matter: Option<FrontMatter>,
    pub namespaces: Vec<Namespace>,
    pub relations: Vec<Relation>,
}

/// Whether the namespace names of `ns` are pairwise distinct.
pub open spec fn unique_names(ns: Seq<Namespace>) -> bool {
    forall|i: int, j: int| 0 <= i < j < ns.len() ==> ns[i].name@ != ns[j].name@
}

impl Diagram {
    /// A document with no front matter, classes or relations.
    pub fn new() -> (r: Diagram)
        ensures
            r.front_matter.is_none(),
            r.namespaces@.len() == 0,
            r.relations@.len() == 0,
    {
        Diagram { front_matter: None, namespaces: Vec::new(), relations: Vec::new() }
    }
}

/// Whether a `---` fence line starts at position `p` of `b`.
pub open spec fn fence_at(b: Seq<char>, p: int) -> bool {
    &&& 0 <= p
    &&& p + 3 <= b.len()
    &&& (p == 0 || b[p - 1] == '\n')
    &&& b[p] == '-'
    &&& b[p + 1] == '-'
    &&& b[p + 2] == '-'
}

/// The front matter of a document source and what follows it: a source that
/// opens with a `---` line holds front matter up to the next line that starts
/// with `---`; the rest begins after that fence line.
pub open spec fn front_matter_split(source: Seq<char>) -> Option<(Seq<char>, Seq<char>)> {
    if has_prefix(source, "---\n"@) {
        let b = source.subrange("---\n"@.len() as int, source.len() as int);
        if exists|p: int| fence_at(b, p) {
            let p = choose|p: int| fence_at(b, p) && forall|q: int| 0 <= q < p ==> !fence_at(b, q);
            let after = if p + 3 < b.len() && b[p + 3] == '\n' { p + 4 } else { p + 3 };
            Some((b.subrange(0, p), b.subrange(after, b.len() as int)))
        } else {
            None
        }
    } else {
        None
    }
}

fn is_fence(b: &str, p: usize) -> (r: bool)
    ensures
        r == fence_at(b@, p as int),
{
    let m = b.unicode_len();
    if m < 3 || p > m - 3 {
        return false;
    }
    (p == 0 || b.get_char(p - 1) == '\n') && b.get_char(p) == '-' && b.get_char(p + 1) == '-'
        && b.get_char(p + 2) == '-'
}

pub(crate) proof fn lemma_first_fence(b: Seq<char>, p: int)
    requires
        fence_at(b, p),
        forall|q: int| 0 <= q < p ==> !fence_at(b, q),
    ensures
        (choose|c: int| fence_at(b, c) && forall|q: int| 0 <= q < c ==> !fence_at(b, q)) == p,
{
    let c = choose|c: int| fence_at(b, c) && forall|q: int| 0 <= q < c ==> !fence_at(b, q);
    if c < p {
        assert(!fence_at(b, c));
    } else if c > p {
        assert(!fence_at(b, p));
    }
}

/// The first fence position of `b`, if it has one.
fn first_fence(b: &str) -> (r: Option<usize>)
    ensures
        match r {
            Some(p) => fence_at(b@, p as int) && forall|q: int| 0 <= q < p ==> !fence_at(b@, q),
            None => forall|q: int| !fence_at(b@, q),
        },
{
    let m = b.unicode_len();
    let mut p: usize = 0;
    while p < m
        invariant
            m == b@.len(),
            p <= m,
            forall|q: int| 0 <= q < p ==> !fence_at(b@, q),
        decreases m - p,
    {
        if is_fence(b, p) {
            return Some(p);
        }
        p += 1;
    }
    None
}

/// Splits a document source into its front matter and the rest, when it
/// opens with a `---` fenced block.
pub fn split_front_matter(source: &str) -> (r: Option<(String, String)>)
    ensures
        match r {
            Some((fm, rest)) => front_matter_split(source@) == Some((fm@, rest@)),
            None => front_matter_split(source@).is_none(),
        },
{
    let open = "---\n";
    if !starts_with_text(source, open) {
        return None;
    }
    let n = source.unicode_len();
    let body = source.substring_char(open.unicode_len(), n);
    let m = body.unicode_len();
    match first_fence(body) {
        Some(p) => {
            proof {
                lemma_first_fence(body@, p as int);
            }
            let after = if p + 3 < m && body.get_char(p + 3) == '\n' {
                p + 4
            } else {
                p + 3
            };
            Some(
                (
                    String::from_str(body.substring_char(0, p)),
                    String::from_str(body.substring_char(after, m)),
                ),
            )
        },
        None => None,
    }
}

} // verus!
