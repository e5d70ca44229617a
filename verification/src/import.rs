//! The import builder.
//!
//! An import names a source path, and optionally an alias identifier.  The
//! name an import is known by is the alias when one is given; otherwise it
//! is derived from the path: the base name — the longest suffix free of
//! `'/'` — with its extension stripped at the last `'.'` (a `'.'` that
//! begins the base name does not count as an extension).  A path whose base
//! name is empty has no derivable name, which is a hard failure when no
//! alias was given.

use vstd::prelude::*;
use vstd::string::{StrSliceExecFns, StringExecFns};

use crate::ParseFailure;
use crate::expression::opt_text;
use crate::statement::{Statement, StatementV};
use crate::string::{parse as parse_string, spec_string_value};
use crate::tree::{lemma_deep_nodes, NodeV, ParseNode, Tag};

verus! {

/// Where a path's base name starts: the index after the last `'/'`, or 0
/// when the path holds none.
pub open spec fn spec_base_start(p: Seq<char>) -> int
    decreases p,
{
    if p.len() == 0 {
        0
    } else if p.last() == '/' {
        p.len() as int
    } else {
        spec_base_start(p.drop_last())
    }
}

/// The index of the last `'.'` of a base name, leaving its first character
/// out of consideration, or nothing when no such `'.'` exists.
pub open spec fn spec_last_dot(base: Seq<char>) -> Option<int>
    decreases base,
{
    if base.len() <= 1 {
        None
    } else if base.last() == '.' {
        Some(base.len() - 1)
    } else {
        spec_last_dot(base.drop_last())
    }
}

/// A base name with its extension stripped.
pub open spec fn spec_stem(base: Seq<char>) -> Seq<char> {
    match spec_last_dot(base) {
        Some(j) => base.subrange(0, j),
        None => base,
    }
}

/// The import name derived from a path when no alias is given: the stem of
/// the path's base name, or nothing when the base name is empty.
pub open spec fn spec_derived_name(p: Seq<char>) -> Option<Seq<char>> {
    let base = p.subrange(spec_base_start(p), p.len() as int);
    if base.len() == 0 {
        None
    } else {
        Some(spec_stem(base))
    }
}

/// The path and alias an import's children build to, visited in source
/// order with later children overriding earlier ones; children of other
/// productions are skipped.
pub open spec fn import_fold(cs: Seq<NodeV>) -> Option<(Seq<char>, Option<Seq<char>>)>
    decreases cs,
{
    if cs.len() == 0 {
        Some((Seq::empty(), None))
    } else {
        match import_fold(cs.drop_last()) {
            None => None,
            Some((path, alias)) => {
                let c = cs.last();
                if c.tag == Tag::StringLiteral {
                    match spec_string_value(c) {
                        None => None,
                        Some(p) => Some((p, alias)),
                    }
                } else if c.tag == Tag::Identifier {
                    Some((path, Some(c.text)))
                } else {
                    Some((path, alias))
                }
            },
        }
    }
}

/// The statement an `import` node builds to: its path, and its name — the
/// alias when one is given, else the name derived from the path.
pub open spec fn spec_import(n: NodeV) -> Option<StatementV> {
    match import_fold(n.children) {
        None => None,
        Some((path, alias)) => match alias {
            Some(a) => Some(StatementV::Import { path, name: a, alias: Some(a) }),
            None => match spec_derived_name(path) {
                None => None,
                Some(name) => Some(StatementV::Import { path, name, alias: None }),
            },
        },
    }
}

/// Once a prefix of an import's children fails to build, the whole import
/// fails.
proof fn lemma_import_fold_fail(cs: Seq<NodeV>, j: int)
    requires
        0 <= j <= cs.len(),
        import_fold(cs.subrange(0, j)) is None,
    ensures
        import_fold(cs) is None,
    decreases cs.len() - j,
{
    if j == cs.len() {
        assert(cs.subrange(0, j) =~= cs);
    } else {
        assert(cs.subrange(0, j + 1).drop_last() =~= cs.subrange(0, j));
        lemma_import_fold_fail(cs, j + 1);
    }
}

/// Derives an import's default name from its path: the stem of the path's
/// base name, or nothing when the path ends in `'/'` or is empty.
fn derive_name(path: &str) -> (r: Option<String>)
    ensures
        match r {
            Some(s) => spec_derived_name(path@) == Some(s@),
            None => spec_derived_name(path@) is None,
        },
{
    let ghost p = path@;
    let n = path.unicode_len();
    let mut b = n;
    proof {
        assert(p.subrange(0, n as int) =~= p);
    }
    while b > 0 && path.get_char(b - 1) != '/'
        invariant
            b <= n,
            n == p.len(),
            p == path@,
            spec_base_start(p) == spec_base_start(p.subrange(0, b as int)),
        decreases b,
    {
        proof {
            assert(p.subrange(0, b as int).drop_last() =~= p.subrange(0, b - 1));
        }
        b -= 1;
    }
    proof {
        if b > 0 {
            assert(p.subrange(0, b as int).last() == p[b - 1]);
        }
        assert(spec_base_start(p) == b as int);
    }
    if b == n {
        // the base name is empty: no name can be derived
        return None;
    }
    let ghost base = p.subrange(b as int, n as int);
    let mut e = n;
    proof {
        assert(base.subrange(0, (e - b) as int) =~= base);
    }
    while e - 1 > b && path.get_char(e - 1) != '.'
        invariant
            b + 1 <= e <= n,
            b < n,
            n == p.len(),
            p == path@,
            base == p.subrange(b as int, n as int),
            spec_last_dot(base) == spec_last_dot(base.subrange(0, (e - b) as int)),
        decreases e,
    {
        proof {
            assert(base.subrange(0, (e - b) as int).last() == p[e - 1]);
            assert(base.subrange(0, (e - b) as int).drop_last() =~= base.subrange(0, (e - 1 - b) as int));
        }
        e -= 1;
    }
    let stem_end: usize = if e - 1 > b {
        proof {
            assert(base.subrange(0, (e - b) as int).last() == p[e - 1]);
            assert(spec_last_dot(base) == Some((e - 1 - b) as int));
        }
        e - 1
    } else {
        proof {
            assert(base.subrange(0, (e - b) as int).len() == 1);
            assert(spec_last_dot(base) is None);
        }
        n
    };
    let stem = path.substring_char(b, stem_end);
    proof {
        assert(stem@ =~= spec_stem(base));
    }
    Some(String::from_str(stem))
}

/// Extracts an import's source path (via string extraction) and optional
/// alias identifier; when no alias is given, the name is derived from the
/// path, and a path without a derivable name is an internal-consistency
/// failure.
pub fn parse(import: &ParseNode) -> (r: Result<Statement, ParseFailure>)
    ensures
        match r {
            Ok(s) => spec_import(import.deep()) == Some(s.deep()),
            Err(e) => {
                &&& spec_import(import.deep()) is None
                &&& e == ParseFailure::InternalInconsistency
            },
        },
{
    let mut path = String::new();
    let mut alias: Option<String> = None;
    proof {
        lemma_deep_nodes(import.children@);
    }
    let ghost cs = import.deep().children;
    let n = import.children.len();
    let mut i: usize = 0;
    while i < n
        invariant
            i <= n,
            n == import.children.len(),
            cs == import.deep().children,
            cs.len() == import.children@.len(),
            forall|j: int| 0 <= j < cs.len() ==> cs[j] == import.children@[j].deep(),
            import_fold(cs.subrange(0, i as int)) == Some((path@, opt_text(alias))),
        decreases n - i,
    {
        let ghost c = cs[i as int];
        let child = &import.children[i];
        match child.tag {
            Tag::StringLiteral => {
                match parse_string(child) {
                    Ok(p) => {
                        path = p;
                    },
                    Err(e) => {
                        proof {
                            assert(c == child.deep());
                            assert(cs.subrange(0, i + 1).drop_last() =~= cs.subrange(0, i as int));
                            assert(cs.subrange(0, i + 1).last() == c);
                            assert(import_fold(cs.subrange(0, i + 1)) is None);
                            lemma_import_fold_fail(cs, i + 1);
                        }
                        return Err(e);
                    },
                }
            },
            Tag::Identifier => {
                alias = Some(child.text.clone());
            },
            _ => {},
        }
        i += 1;
        proof {
            assert(c == child.deep());
            assert(cs.subrange(0, i as int).drop_last() =~= cs.subrange(0, i - 1));
            assert(cs.subrange(0, i as int).last() == c);
        }
    }
    proof {
        assert(cs.subrange(0, n as int) =~= cs);
    }
    match alias {
        Some(a) => {
            let name = a.clone();
            Ok(Statement::Import { path, name, alias: Some(a) })
        },
        None => {
            match derive_name(path.as_str()) {
                Some(name) => Ok(Statement::Import { path, name, alias: None }),
                None => Err(ParseFailure::InternalInconsistency),
            }
        },
    }
}

} // verus!
