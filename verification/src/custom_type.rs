//! The type builder.
//!
//! A declared type carries a visibility flag, a name, and an ordered list
//! of attribute declarations, each an (attribute-name, type-name) pair kept
//! in source order.  Attribute names are not checked for uniqueness at this
//! layer: duplicates are passed through.

use vstd::prelude::*;

use crate::statement::{deep_attrs, Statement, StatementV};
use crate::tree::{lemma_deep_nodes, NodeV, ParseNode, Tag};

verus! {

/// The (name, type-name) pair an attribute declaration's children build
/// to, later children overriding earlier ones; others are skipped.
pub open spec fn attr_fold(cs: Seq<NodeV>) -> (Seq<char>, Seq<char>)
    decreases cs,
{
    if cs.len() == 0 {
        (Seq::empty(), Seq::empty())
    } else {
        let prior = attr_fold(cs.drop_last());
        let c = cs.last();
        if c.tag == Tag::Identifier {
            (c.text, prior.1)
        } else if c.tag == Tag::Kind {
            (prior.0, c.text)
        } else {
            prior
        }
    }
}

/// The pair an attribute declaration node builds to.
pub open spec fn spec_attribute(n: NodeV) -> (Seq<char>, Seq<char>) {
    attr_fold(n.children)
}

/// The fields a type declaration's children build to, in source order: a
/// visibility marker sets the flag, the last identifier gives the name,
/// and each attribute declaration appends a pair.
pub open spec fn type_fold(cs: Seq<NodeV>) -> (bool, Seq<char>, Seq<(Seq<char>, Seq<char>)>)
    decreases cs,
{
    if cs.len() == 0 {
        (false, Seq::empty(), Seq::empty())
    } else {
        let prior = type_fold(cs.drop_last());
        let c = cs.last();
        if c.tag == Tag::Public {
            (true, prior.1, prior.2)
        } else if c.tag == Tag::Identifier {
            (prior.0, c.text, prior.2)
        } else if c.tag == Tag::TypeAttribute {
            (prior.0, prior.1, prior.2.push(spec_attribute(c)))
        } else {
            prior
        }
    }
}

/// The statement a `custom_type` node builds to.
pub open spec fn spec_custom_type(n: NodeV) -> StatementV {
    let fields = type_fold(n.children);
    StatementV::Type { public: fields.0, name: fields.1, attributes: fields.2 }
}

/// Extracts one attribute declaration: its name and its declared type
/// name, both as raw text.
fn parse_attribute(attr: &ParseNode) -> (r: (String, String))
    ensures
        (r.0@, r.1@) == spec_attribute(attr.deep()),
{
    let mut name = String::new();
    let mut kind = String::new();
    proof {
        lemma_deep_nodes(attr.children@);
    }
    let ghost cs = attr.deep().children;
    let n = attr.children.len();
    let mut i: usize = 0;
    while i < n
        invariant
            i <= n,
            n == attr.children.len(),
            cs == attr.deep().children,
            cs.len() == attr.children@.len(),
            forall|j: int| 0 <= j < cs.len() ==> cs[j] == attr.children@[j].deep(),
            attr_fold(cs.subrange(0, i as int)) == (name@, kind@),
        decreases n - i,
    {
        let ghost c = cs[i as int];
        let child = &attr.children[i];
        match child.tag {
            Tag::Identifier => {
                name = child.text.clone();
            },
            Tag::Kind => {
                kind = child.text.clone();
            },
            _ => {},
        }
        i += 1;
        proof {
            assert(c == child.deep());
            assert(cs.subrange(0, i as int).drop_last() =~= cs.subrange(0, i - 1));
            assert(cs.subrange(0, i as int).last() == c);
        }
    }
    proof {
        assert(cs.subrange(0, n as int) =~= cs);
    }
    (name, kind)
}

/// Extracts a declared type's visibility, name, and ordered attribute
/// pairs.  Every shape is accepted: missing pieces keep their defaults.
pub fn parse(custom_type: &ParseNode) -> (s: Statement)
    ensures
        s.deep() == spec_custom_type(custom_type.deep()),
{
    let mut public = false;
    let mut name = String::new();
    let mut attributes: Vec<(String, String)> = Vec::new();
    proof {
        lemma_deep_nodes(custom_type.children@);
    }
    let ghost cs = custom_type.deep().children;
    let n = custom_type.children.len();
    let mut i: usize = 0;
    while i < n
        invariant
            i <= n,
            n == custom_type.children.len(),
            cs == custom_type.deep().children,
            cs.len() == custom_type.children@.len(),
            forall|j: int| 0 <= j < cs.len() ==> cs[j] == custom_type.children@[j].deep(),
            type_fold(cs.subrange(0, i as int)) == (public, name@, deep_attrs(attributes@)),
        decreases n - i,
    {
        let ghost c = cs[i as int];
        let ghost prev = attributes@;
        let child = &custom_type.children[i];
        match child.tag {
            Tag::Public => {
                public = true;
            },
            Tag::Identifier => {
                name = child.text.clone();
            },
            Tag::TypeAttribute => {
                let attribute = parse_attribute(child);
                attributes.push(attribute);
            },
            _ => {},
        }
        i += 1;
        proof {
            assert(c == child.deep());
            assert(cs.subrange(0, i as int).drop_last() =~= cs.subrange(0, i - 1));
            assert(cs.subrange(0, i as int).last() == c);
            if attributes@.len() > prev.len() {
                assert(deep_attrs(attributes@) =~= deep_attrs(prev).push(
                    (attributes@.last().0@, attributes@.last().1@),
                ));
            } else {
                assert(deep_attrs(attributes@) =~= deep_attrs(prev));
            }
        }
    }
    proof {
        assert(cs.subrange(0, n as int) =~= cs);
    }
    Statement::Type { public, name, attributes }
}

} // verus!
