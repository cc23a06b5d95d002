//! What namespaces the names of a document have.

use vstd::prelude::*;

use crate::access::attribute_value;
use crate::dom::{AttributeModel, XmlAttribute, XmlNodeKind};
use crate::facade::{handle_of, StateModel};
use crate::handle::{DomErrorModel, HandleModel};
use crate::namespace::{
    declarations_from, declares_namespace, lemma_name_parts_join, name_parts, plain_name,
};
use crate::scoping::{
    attribute_in_namespace, bound_at, children_in_namespace, expanded_at, namespace_at,
    ExpandedModel,
};
use crate::syntax::{name_part, valid_name};
use crate::text::find_char_from;
use crate::tree::node_at;

verus! {

/// The value of the attribute `name` at the `j`-th node on the way to the node at `p`.
pub open spec fn attribute_on_the_way(
    s: StateModel,
    p: Seq<usize>,
    j: int,
    name: Seq<char>,
) -> Result<Option<Seq<char>>, DomErrorModel> {
    attribute_value(node_at(s.root, p.take(j)), name, s.reading)
}

/// The nearest declaration decides.
proof fn lemma_nearest(s: StateModel, p: Seq<usize>, name: Seq<char>, j: int, u: Seq<char>)
    requires
        0 <= j <= p.len(),
        attribute_on_the_way(s, p, j, name) == Ok::<Option<Seq<char>>, DomErrorModel>(Some(u)),
        forall|i: int|
            j < i <= p.len() ==> #[trigger] attribute_on_the_way(s, p, i, name) == Ok::<
                Option<Seq<char>>,
                DomErrorModel,
            >(None),
    ensures
        bound_at(s, p, name) == Ok::<Option<Seq<char>>, DomErrorModel>(
            if u.len() == 0 {
                None
            } else {
                Some(u)
            },
        ),
    decreases p.len(),
{
    assert(p.take(p.len() as int) =~= p);
    if j < p.len() {
        assert(attribute_on_the_way(s, p, p.len() as int, name) == Ok::<
            Option<Seq<char>>,
            DomErrorModel,
        >(None));
        let q = p.drop_last();
        assert(q.take(j) =~= p.take(j));
        assert forall|i: int| j < i <= q.len() implies #[trigger] attribute_on_the_way(
            s,
            q,
            i,
            name,
        ) == Ok::<Option<Seq<char>>, DomErrorModel>(None) by {
            assert(q.take(i) =~= p.take(i));
            assert(attribute_on_the_way(s, p, i, name) == Ok::<Option<Seq<char>>, DomErrorModel>(
                None,
            ));
        }
        lemma_nearest(s, q, name, j, u);
    }
}

/// Where nothing is declared, nothing is bound.
proof fn lemma_undeclared(s: StateModel, p: Seq<usize>, name: Seq<char>)
    requires
        forall|i: int|
            0 <= i <= p.len() ==> #[trigger] attribute_on_the_way(s, p, i, name) == Ok::<
                Option<Seq<char>>,
                DomErrorModel,
            >(None),
    ensures
        bound_at(s, p, name) == Ok::<Option<Seq<char>>, DomErrorModel>(None),
    decreases p.len(),
{
    assert(p.take(p.len() as int) =~= p);
    assert(attribute_on_the_way(s, p, p.len() as int, name) == Ok::<
        Option<Seq<char>>,
        DomErrorModel,
    >(None));
    if p.len() > 0 {
        let q = p.drop_last();
        assert forall|i: int| 0 <= i <= q.len() implies #[trigger] attribute_on_the_way(
            s,
            q,
            i,
            name,
        ) == Ok::<Option<Seq<char>>, DomErrorModel>(None) by {
            assert(q.take(i) =~= p.take(i));
            assert(attribute_on_the_way(s, p, i, name) == Ok::<Option<Seq<char>>, DomErrorModel>(
                None,
            ));
        }
        lemma_undeclared(s, q, name);
    }
}

/// The default namespace at an element is the value of the attribute `xmlns` of the nearest
/// element, itself with them, that has one; an empty value takes the default namespace away.
pub proof fn lemma_default_namespace(s: StateModel, p: Seq<usize>, j: int, u: Seq<char>)
    requires
        node_at(s.root, p).kind == XmlNodeKind::Element,
        0 <= j <= p.len(),
        attribute_on_the_way(s, p, j, "xmlns"@) == Ok::<Option<Seq<char>>, DomErrorModel>(Some(u)),
        forall|i: int|
            j < i <= p.len() ==> #[trigger] attribute_on_the_way(s, p, i, "xmlns"@) == Ok::<
                Option<Seq<char>>,
                DomErrorModel,
            >(None),
    ensures
        namespace_at(s, p, None) == Ok::<Option<Seq<char>>, DomErrorModel>(
            if u.len() == 0 {
                None
            } else {
                Some(u)
            },
        ),
{
    lemma_nearest(s, p, "xmlns"@, j, u);
}

/// The namespace of a prefix at an element is the value of the attribute `xmlns:` and the prefix
/// of the nearest element, itself with them, that has one.
pub proof fn lemma_prefix_namespace(
    s: StateModel,
    p: Seq<usize>,
    prefix: Seq<char>,
    j: int,
    u: Seq<char>,
)
    requires
        node_at(s.root, p).kind == XmlNodeKind::Element,
        prefix != "xml"@,
        prefix != "xmlns"@,
        0 <= j <= p.len(),
        attribute_on_the_way(s, p, j, "xmlns:"@ + prefix) == Ok::<
            Option<Seq<char>>,
            DomErrorModel,
        >(Some(u)),
        forall|i: int|
            j < i <= p.len() ==> #[trigger] attribute_on_the_way(s, p, i, "xmlns:"@ + prefix)
                == Ok::<Option<Seq<char>>, DomErrorModel>(None),
    ensures
        namespace_at(s, p, Some(prefix)) == Ok::<Option<Seq<char>>, DomErrorModel>(
            if u.len() == 0 {
                None
            } else {
                Some(u)
            },
        ),
{
    lemma_nearest(s, p, "xmlns:"@ + prefix, j, u);
}

/// Where no element on the way declares a prefix, or the default namespace, there is none.
pub proof fn lemma_no_namespace(
    s: StateModel,
    p: Seq<usize>,
    prefix: Option<Seq<char>>,
    name: Seq<char>,
)
    requires
        node_at(s.root, p).kind == XmlNodeKind::Element,
        prefix != Some("xml"@),
        prefix != Some("xmlns"@),
        name == (match prefix {
            Some(x) => "xmlns:"@ + x,
            None => "xmlns"@,
        }),
        forall|i: int|
            0 <= i <= p.len() ==> #[trigger] attribute_on_the_way(s, p, i, name) == Ok::<
                Option<Seq<char>>,
                DomErrorModel,
            >(None),
    ensures
        namespace_at(s, p, prefix) == Ok::<Option<Seq<char>>, DomErrorModel>(None),
{
    lemma_undeclared(s, p, name);
}

/// The prefixes `xml` and `xmlns` have their namespaces everywhere.
pub proof fn lemma_reserved_prefixes(s: StateModel, p: Seq<usize>)
    ensures
        namespace_at(s, p, Some("xml"@)) == Ok::<Option<Seq<char>>, DomErrorModel>(
            Some("http://www.w3.org/XML/1998/namespace"@),
        ),
        namespace_at(s, p, Some("xmlns"@)) == Ok::<Option<Seq<char>>, DomErrorModel>(
            Some("http://www.w3.org/2000/xmlns/"@),
        ),
{
    reveal_strlit("xml");
    reveal_strlit("xmlns");
}

/// What is not an element has the namespaces of its parent.
pub proof fn lemma_namespaces_of_a_leaf(s: StateModel, p: Seq<usize>, prefix: Option<Seq<char>>)
    requires
        p.len() > 0,
        node_at(s.root, p).kind != XmlNodeKind::Element,
        node_at(s.root, p.drop_last()).kind == XmlNodeKind::Element,
    ensures
        namespace_at(s, p, prefix) == namespace_at(s, p.drop_last(), prefix),
        expanded_at(s, p) == Ok::<Option<ExpandedModel>, DomErrorModel>(None),
{
}

/// The namespace of an element is the one of the prefix of its name, looked up at the element; an
/// element without a prefix is in the default namespace.
pub proof fn lemma_namespace_of_an_element(s: StateModel, p: Seq<usize>)
    requires
        node_at(s.root, p).kind == XmlNodeKind::Element,
    ensures
        match name_parts(node_at(s.root, p).name) {
            None => expanded_at(s, p) == Err::<Option<ExpandedModel>, DomErrorModel>(
                DomErrorModel::Namespace(node_at(s.root, p).name),
            ),
            Some((prefix, local)) => match namespace_at(s, p, prefix) {
                Err(e) => expanded_at(s, p) == Err::<Option<ExpandedModel>, DomErrorModel>(e),
                Ok(namespace) => expanded_at(s, p) matches Ok(Some(x)) && x.namespace == namespace
                    && x.local == local && x.prefix == prefix && x.qualified == node_at(
                    s.root,
                    p,
                ).name,
            },
        },
{
}

/// An element without a prefix whose nearest declaration of the default namespace is `u`, and
/// which is not empty, is in the namespace `u`.
pub proof fn lemma_unprefixed_element(s: StateModel, p: Seq<usize>, j: int, u: Seq<char>)
    requires
        node_at(s.root, p).kind == XmlNodeKind::Element,
        valid_name(node_at(s.root, p).name),
        !node_at(s.root, p).name.contains(':'),
        u.len() > 0,
        0 <= j <= p.len(),
        attribute_on_the_way(s, p, j, "xmlns"@) == Ok::<Option<Seq<char>>, DomErrorModel>(Some(u)),
        forall|i: int|
            j < i <= p.len() ==> #[trigger] attribute_on_the_way(s, p, i, "xmlns"@) == Ok::<
                Option<Seq<char>>,
                DomErrorModel,
            >(None),
    ensures
        expanded_at(s, p) matches Ok(Some(x)) && x.namespace == Some(u) && x.local == node_at(
            s.root,
            p,
        ).name && x.prefix is None,
{
    lemma_default_namespace(s, p, j, u);
    lemma_qualified_names(node_at(s.root, p).name, node_at(s.root, p).name);
}

/// A character that is not there is not found, and the first one is.
proof fn lemma_colon(s: Seq<char>, i: int, k: int)
    requires
        0 <= i <= k <= s.len(),
        forall|m: int| i <= m < k ==> #[trigger] s[m] != ':',
        k < s.len() ==> s[k] == ':',
    ensures
        find_char_from(s, i, ':') == (if k < s.len() {
            Some(k)
        } else {
            None
        }),
    decreases k - i,
{
    if i < k {
        lemma_colon(s, i + 1, k);
    }
}

/// A name without a colon is a local name; two such names with a colon between them are a prefix
/// and a local name.
pub proof fn lemma_qualified_names(a: Seq<char>, b: Seq<char>)
    requires
        valid_name(a),
        !a.contains(':'),
        valid_name(b),
        !b.contains(':'),
    ensures
        name_parts(a) == Some((None::<Seq<char>>, a)),
        name_parts(a.push(':') + b) == Some((Some(a), b)),
{
    let s = a.push(':') + b;
    assert forall|i: int| 0 <= i < a.len() implies #[trigger] a[i] != ':' by {
        assert(a.contains(a[i]));
    }
    assert forall|i: int| 0 <= i < b.len() implies #[trigger] b[i] != ':' by {
        assert(b.contains(b[i]));
    }
    lemma_colon(a, 0, a.len() as int);
    assert forall|i: int| 0 <= i < a.len() implies #[trigger] s[i] != ':' by {
        assert(s[i] == a[i]);
    }
    assert(s[a.len() as int] == ':');
    lemma_colon(s, 0, a.len() as int);
    assert(s.take(a.len() as int) =~= a);
    assert(s.skip(a.len() as int + 1) =~= b);
    assert(plain_name(a));
    assert(plain_name(b));
}

/// Only names without a colon, or two of them with a colon between them, are qualified names.
pub proof fn lemma_qualified_names_only(s: Seq<char>)
    ensures
        match name_parts(s) {
            Some((None, local)) => local == s && valid_name(s) && !s.contains(':'),
            Some((Some(prefix), local)) => {
                &&& s == prefix.push(':') + local
                &&& valid_name(prefix) && !prefix.contains(':')
                &&& valid_name(local) && !local.contains(':')
            },
            None => true,
        },
{
    if name_parts(s) is Some {
        lemma_name_parts_join(s);
        let (prefix, local) = name_parts(s)->Some_0;
        lemma_plain(local);
        if let Some(x) = prefix {
            lemma_plain(x);
        }
    }
}

proof fn lemma_plain(n: Seq<char>)
    requires
        plain_name(n),
    ensures
        valid_name(n),
        !n.contains(':'),
{
    crate::alphabet::lemma_name_characters(n[0]);
    assert forall|i: int| 0 <= i < n.len() implies name_part(#[trigger] n[i]) by {
        if i > 0 {
            assert(name_part(n[i]));
        }
    }
}

/// The children that are found by namespace are, in their order, those whose expanded name has
/// the namespace and the local name: `at` are their places.
pub proof fn lemma_children_by_namespace(
    s: StateModel,
    p: Seq<usize>,
    namespace: Option<Seq<char>>,
    local: Seq<char>,
) -> (at: Seq<int>)
    requires
        forall|k: int|
            0 <= k < node_at(s.root, p).children.len() ==> expanded_at(
                s,
                #[trigger] p.push(k as usize),
            ) is Ok,
    ensures
        ({
            let n = node_at(s.root, p).children;
            let found = children_in_namespace(s, p, 0, namespace, local, false, Seq::empty());
            &&& found is Ok
            &&& found->Ok_0.len() == at.len()
            &&& forall|i: int|
                0 <= i < at.len() ==> 0 <= #[trigger] at[i] < n.len() && found->Ok_0[i]
                    == handle_of(s, n[at[i]].id)
            &&& forall|i: int, j: int| 0 <= i < j < at.len() ==> #[trigger] at[i] < #[trigger] at[j]
            &&& forall|k: int|
                0 <= k < n.len() ==> (at.contains(k) <==> (expanded_at(
                    s,
                    #[trigger] p.push(k as usize),
                ) matches Ok(Some(x)) && x.namespace == namespace && x.local == local))
            &&& children_in_namespace(s, p, 0, namespace, local, true, Seq::empty()) matches Ok(one)
                && one.len() == (if at.len() > 0 {
                1nat
            } else {
                0nat
            }) && (at.len() > 0 ==> one[0] == found->Ok_0[0])
        }),
{
    let at = lemma_children_from(s, p, 0, namespace, local, Seq::empty(), Seq::empty());
    at
}

proof fn lemma_children_from(
    s: StateModel,
    p: Seq<usize>,
    k: int,
    namespace: Option<Seq<char>>,
    local: Seq<char>,
    acc: Seq<HandleModel>,
    before: Seq<int>,
) -> (at: Seq<int>)
    requires
        0 <= k <= node_at(s.root, p).children.len(),
        forall|k: int|
            0 <= k < node_at(s.root, p).children.len() ==> expanded_at(
                s,
                #[trigger] p.push(k as usize),
            ) is Ok,
        acc.len() == before.len(),
        forall|i: int|
            0 <= i < before.len() ==> 0 <= #[trigger] before[i] < k && acc[i] == handle_of(
                s,
                node_at(s.root, p).children[before[i]].id,
            ),
        forall|i: int, j: int|
            0 <= i < j < before.len() ==> #[trigger] before[i] < #[trigger] before[j],
        forall|m: int|
            0 <= m < k ==> (before.contains(m) <==> (expanded_at(s, #[trigger] p.push(m as usize))
                matches Ok(Some(x)) && x.namespace == namespace && x.local == local)),
    ensures
        ({
            let n = node_at(s.root, p).children;
            let found = children_in_namespace(s, p, k, namespace, local, false, acc);
            &&& found is Ok
            &&& found->Ok_0.len() == at.len()
            &&& at.len() >= before.len()
            &&& acc.len() > 0 ==> found->Ok_0[0] == acc[0]
            &&& forall|i: int|
                0 <= i < at.len() ==> 0 <= #[trigger] at[i] < n.len() && found->Ok_0[i]
                    == handle_of(s, n[at[i]].id)
            &&& forall|i: int, j: int| 0 <= i < j < at.len() ==> #[trigger] at[i] < #[trigger] at[j]
            &&& forall|m: int|
                0 <= m < n.len() ==> (at.contains(m) <==> (expanded_at(
                    s,
                    #[trigger] p.push(m as usize),
                ) matches Ok(Some(x)) && x.namespace == namespace && x.local == local))
            &&& acc.len() == 0 ==> (children_in_namespace(s, p, k, namespace, local, true, acc)
                matches Ok(one) && one.len() == (if at.len() > 0 {
                1nat
            } else {
                0nat
            }) && (at.len() > 0 ==> one[0] == found->Ok_0[0]))
        }),
    decreases node_at(s.root, p).children.len() - k,
{
    let n = node_at(s.root, p).children;
    if k == n.len() {
        before
    } else {
        assert(expanded_at(s, p.push(k as usize)) is Ok);
        let x = expanded_at(s, p.push(k as usize))->Ok_0;
        if crate::scoping::expands_to(x, namespace, local) {
            let more = before.push(k);
            assert forall|m: int| 0 <= m < k + 1 implies (more.contains(m) <==> (expanded_at(
                s,
                #[trigger] p.push(m as usize),
            ) matches Ok(Some(x)) && x.namespace == namespace && x.local == local)) by {
                if m == k {
                    assert(more[before.len() as int] == k);
                } else {
                    if before.contains(m) {
                        let i = choose|i: int| 0 <= i < before.len() && before[i] == m;
                        assert(more[i] == m);
                    }
                    if more.contains(m) {
                        let i = choose|i: int| 0 <= i < more.len() && more[i] == m;
                        assert(before[i] == m);
                    }
                }
            }
            lemma_children_from(
                s,
                p,
                k + 1,
                namespace,
                local,
                acc.push(handle_of(s, n[k].id)),
                more,
            )
        } else {
            assert(!before.contains(k)) by {
                if before.contains(k) {
                    let i = choose|i: int| 0 <= i < before.len() && before[i] == k;
                    assert(before[i] < k);
                }
            }
            lemma_children_from(s, p, k + 1, namespace, local, acc, before)
        }
    }
}

/// An attribute is found by namespace and local name: the first one that is no declaration, whose
/// local name is the one that was asked for, and whose namespace is that of its prefix. An
/// attribute without a prefix has no namespace, whatever the default namespace is.
pub proof fn lemma_attribute_by_namespace(
    s: StateModel,
    p: Seq<usize>,
    a: Seq<AttributeModel>,
    namespace: Option<Seq<char>>,
    local: Seq<char>,
    k: int,
)
    requires
        0 <= k < a.len(),
        forall|i: int| 0 <= i <= k ==> name_parts((#[trigger] a[i]).name) is Some,
        forall|i: int|
            0 <= i <= k ==> (name_parts((#[trigger] a[i]).name)->Some_0.0 matches Some(x)
                ==> namespace_at(s, p, Some(x)) is Ok),
        has_name(s, p, a[k], namespace, local),
        forall|i: int| 0 <= i < k ==> !has_name(s, p, #[trigger] a[i], namespace, local),
    ensures
        attribute_in_namespace(s, p, a, 0, namespace, local) == Ok::<
            Option<Seq<char>>,
            DomErrorModel,
        >(Some(a[k].value)),
{
    lemma_attribute_from(s, p, a, namespace, local, 0, k);
}

/// The attribute has the namespace and the local name.
pub open spec fn has_name(
    s: StateModel,
    p: Seq<usize>,
    a: AttributeModel,
    namespace: Option<Seq<char>>,
    local: Seq<char>,
) -> bool {
    &&& !declares_namespace(a.name)
    &&& match name_parts(a.name) {
        None => false,
        Some((None, l)) => l == local && namespace is None,
        Some((Some(x), l)) => l == local && namespace_at(s, p, Some(x)) == Ok::<
            Option<Seq<char>>,
            DomErrorModel,
        >(namespace),
    }
}

proof fn lemma_attribute_from(
    s: StateModel,
    p: Seq<usize>,
    a: Seq<AttributeModel>,
    namespace: Option<Seq<char>>,
    local: Seq<char>,
    i: int,
    k: int,
)
    requires
        0 <= i <= k < a.len(),
        forall|i: int| 0 <= i <= k ==> name_parts((#[trigger] a[i]).name) is Some,
        forall|i: int|
            0 <= i <= k ==> (name_parts((#[trigger] a[i]).name)->Some_0.0 matches Some(x)
                ==> namespace_at(s, p, Some(x)) is Ok),
        has_name(s, p, a[k], namespace, local),
        forall|m: int| i <= m < k ==> !has_name(s, p, #[trigger] a[m], namespace, local),
    ensures
        attribute_in_namespace(s, p, a, i, namespace, local) == Ok::<
            Option<Seq<char>>,
            DomErrorModel,
        >(Some(a[k].value)),
    decreases k - i,
{
    if i < k {
        assert(!has_name(s, p, a[i], namespace, local));
        lemma_attribute_from(s, p, a, namespace, local, i + 1, k);
    }
}

/// If no attribute has the namespace and the local name, none is found.
pub proof fn lemma_no_attribute_by_namespace(
    s: StateModel,
    p: Seq<usize>,
    a: Seq<AttributeModel>,
    namespace: Option<Seq<char>>,
    local: Seq<char>,
    i: int,
)
    requires
        0 <= i <= a.len(),
        forall|i: int| 0 <= i < a.len() ==> name_parts((#[trigger] a[i]).name) is Some,
        forall|i: int|
            0 <= i < a.len() ==> (name_parts((#[trigger] a[i]).name)->Some_0.0 matches Some(x)
                ==> namespace_at(s, p, Some(x)) is Ok),
        forall|m: int| 0 <= m < a.len() ==> !has_name(s, p, #[trigger] a[m], namespace, local),
    ensures
        attribute_in_namespace(s, p, a, i, namespace, local) == Ok::<
            Option<Seq<char>>,
            DomErrorModel,
        >(None),
    decreases a.len() - i,
{
    if i < a.len() {
        assert(!has_name(s, p, a[i], namespace, local));
        lemma_no_attribute_by_namespace(s, p, a, namespace, local, i + 1);
    }
}

/// The attributes that declare namespaces are `xmlns` and those that start with `xmlns:`.
pub proof fn lemma_declaring_attributes(name: Seq<char>, prefix: Seq<char>)
    ensures
        declares_namespace("xmlns"@),
        declares_namespace("xmlns:"@ + prefix),
        declares_namespace(name) ==> name == "xmlns"@ || exists|x: Seq<char>|
            name == #[trigger] ("xmlns:"@ + x),
{
    reveal_strlit("xmlns:");
    assert(("xmlns:"@ + prefix).subrange(0, 6) =~= "xmlns:"@);
    if declares_namespace(name) && name != "xmlns"@ {
        assert(name =~= "xmlns:"@ + name.skip(6));
    }
}

/// The declarations of an element are its declaring attributes in their order: for one more
/// attribute there is one more declaration, of its prefix and its value, or none.
pub proof fn lemma_declarations(
    a: Seq<XmlAttribute>,
    k: int,
    acc: Seq<(Option<Seq<char>>, Seq<char>)>,
)
    requires
        0 <= k < a.len(),
    ensures
        declarations_from(a, k, acc) == declarations_from(
            a,
            k + 1,
            if a[k].name@ == "xmlns"@ {
                acc.push((None, a[k].value@))
            } else if a[k].name@.len() >= 6 && a[k].name@.take(6) == "xmlns:"@ {
                acc.push((Some(a[k].name@.skip(6)), a[k].value@))
            } else {
                acc
            },
        ),
        declarations_from(a, a.len() as int, acc) == acc,
{
    reveal_strlit("xmlns:");
    reveal_strlit("xmlns");
    assert(a[k].name@.len() >= 6 ==> a[k].name@.take(6) =~= a[k].name@.subrange(0, 6));
}

} // verus!
