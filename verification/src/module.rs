//! The module assembler and the assembled module.
//!
//! A module is a name and an environment: its top-level declarations keyed
//! by their names.  The environment is a mapping, not a positional list —
//! when two statements share a name, the later one silently replaces the
//! earlier, a deliberate last-write-wins policy and not an error.

use vstd::prelude::*;
use vstd::string::StringExecFns;

use crate::ParseFailure;
use crate::statement::{spec_statement, spec_statement_name, Statement, StatementV};
use crate::tree::{lemma_deep_nodes, NodeV, ParseNode, Tag};

verus! {

/// A parsed module: its name and its environment of declarations.  The
/// environment is kept as a vector of (name, statement) entries whose keys
/// are unique; its meaning is the mapping from names to statements.
#[derive(Debug)]
pub struct Module {
    pub name: String,
    pub environment: Vec<(String, Statement)>,
}

/// Mathematical value of a module: a name and a name-keyed mapping of
/// declarations.
pub struct ModuleV {
    pub name: Seq<char>,
    pub environment: Map<Seq<char>, StatementV>,
}

/// Mathematical values of environment entries, in storage order.
pub open spec fn entries_of(es: Seq<(String, Statement)>) -> Seq<(Seq<char>, StatementV)> {
    Seq::new(es.len(), |i: int| (es[i].0@, es[i].1.deep()))
}

/// Whether no two entries share a key.
pub open spec fn distinct_keys(es: Seq<(Seq<char>, StatementV)>) -> bool {
    forall|i: int, j: int| 0 <= i < j < es.len() ==> es[i].0 != es[j].0
}

/// The mapping a sequence of entries stands for: later entries override
/// earlier ones.
pub open spec fn map_of(es: Seq<(Seq<char>, StatementV)>) -> Map<Seq<char>, StatementV>
    decreases es,
{
    if es.len() == 0 {
        Map::empty()
    } else {
        map_of(es.drop_last()).insert(es.last().0, es.last().1)
    }
}

/// A key is in the mapping exactly when some entry carries it.
pub proof fn lemma_map_of_contains(es: Seq<(Seq<char>, StatementV)>, k: Seq<char>)
    ensures
        map_of(es).contains_key(k) <==> exists|i: int| 0 <= i < es.len() && es[i].0 == k,
    decreases es.len(),
{
    if es.len() > 0 {
        lemma_map_of_contains(es.drop_last(), k);
        if es.last().0 == k {
            assert(es[es.len() - 1].0 == k);
        } else if map_of(es).contains_key(k) {
            let i = choose|i: int| 0 <= i < es.drop_last().len() && es.drop_last()[i].0 == k;
            assert(es[i].0 == k);
        } else {
            assert(forall|i: int| 0 <= i < es.len() - 1 ==> es.drop_last()[i] == es[i]);
        }
    }
}

/// With unique keys, the mapping sends each entry's key to that entry's
/// statement.
pub proof fn lemma_map_of_index(es: Seq<(Seq<char>, StatementV)>, i: int)
    requires
        distinct_keys(es),
        0 <= i < es.len(),
    ensures
        map_of(es).contains_key(es[i].0),
        map_of(es)[es[i].0] == es[i].1,
    decreases es.len(),
{
    if i < es.len() - 1 {
        assert(forall|a: int, b: int|
            0 <= a < b < es.drop_last().len() ==> es.drop_last()[a].0 != es.drop_last()[b].0);
        lemma_map_of_index(es.drop_last(), i);
        assert(es.last().0 != es[i].0);
    }
}

/// With unique keys, replacing the statement of the entry at one position
/// is insertion into the mapping under that entry's key.
pub proof fn lemma_map_of_update(es: Seq<(Seq<char>, StatementV)>, i: int, v: StatementV)
    requires
        distinct_keys(es),
        0 <= i < es.len(),
    ensures
        map_of(es.update(i, (es[i].0, v))) == map_of(es).insert(es[i].0, v),
    decreases es.len(),
{
    let es2 = es.update(i, (es[i].0, v));
    if i == es.len() - 1 {
        assert(es2.drop_last() =~= es.drop_last());
        assert(map_of(es2) =~= map_of(es).insert(es[i].0, v));
    } else {
        assert(es2.drop_last() =~= es.drop_last().update(i, (es[i].0, v)));
        assert(forall|a: int, b: int|
            0 <= a < b < es.drop_last().len() ==> es.drop_last()[a].0 != es.drop_last()[b].0);
        lemma_map_of_update(es.drop_last(), i, v);
        assert(es.last().0 != es[i].0);
        assert(map_of(es2) =~= map_of(es).insert(es[i].0, v));
    }
}

impl Module {
    /// The environment's entries as mathematical values, in storage order.
    pub open spec fn entries(self) -> Seq<(Seq<char>, StatementV)> {
        entries_of(self.environment@)
    }

    /// The module's mathematical value.
    pub open spec fn deep(self) -> ModuleV {
        ModuleV { name: self.name@, environment: map_of(self.entries()) }
    }

    /// Well-formedness: entry keys are unique, each entry is keyed by its
    /// own statement's name, and the `Error` sentinel never occurs.
    pub open spec fn wf(self) -> bool {
        &&& distinct_keys(self.entries())
        &&& forall|i: int|
            0 <= i < self.entries().len() ==> (#[trigger] self.entries()[i]).0
                == spec_statement_name(self.entries()[i].1)
        &&& forall|i: int|
            0 <= i < self.entries().len() ==> !((#[trigger] self.entries()[i]).1 is Error)
    }
}

/// The import statements among an environment's entries, in storage order.
pub open spec fn imports_of(es: Seq<(Seq<char>, StatementV)>) -> Seq<StatementV>
    decreases es,
{
    if es.len() == 0 {
        Seq::empty()
    } else {
        let prior = imports_of(es.drop_last());
        if es.last().1 is Import {
            prior.push(es.last().1)
        } else {
            prior
        }
    }
}

/// The function statements among an environment's entries, in storage
/// order, leaving out the one named `main`: that one is the module's entry
/// point and is never meant to be reached from outside the module.
pub open spec fn functions_of(es: Seq<(Seq<char>, StatementV)>) -> Seq<StatementV>
    decreases es,
{
    if es.len() == 0 {
        Seq::empty()
    } else {
        let prior = functions_of(es.drop_last());
        if es.last().1 matches StatementV::Function { name, .. } && name != "main"@ {
            prior.push(es.last().1)
        } else {
            prior
        }
    }
}

/// The type statements among an environment's entries, in storage order.
pub open spec fn types_of(es: Seq<(Seq<char>, StatementV)>) -> Seq<StatementV>
    decreases es,
{
    if es.len() == 0 {
        Seq::empty()
    } else {
        let prior = types_of(es.drop_last());
        if es.last().1 is Type {
            prior.push(es.last().1)
        } else {
            prior
        }
    }
}

/// Element-wise mathematical value of borrowed statements.
pub open spec fn deep_refs(s: Seq<&Statement>) -> Seq<StatementV> {
    Seq::new(s.len(), |i: int| s[i].deep())
}

/// Looks a key up in an environment with unique keys.
fn env_get<'a>(environment: &'a Vec<(String, Statement)>, key: &String) -> (r: Option<
    &'a Statement,
>)
    requires
        distinct_keys(entries_of(environment@)),
    ensures
        match r {
            Some(s) => {
                &&& map_of(entries_of(environment@)).contains_key(key@)
                &&& s.deep() == map_of(entries_of(environment@))[key@]
            },
            None => !map_of(entries_of(environment@)).contains_key(key@),
        },
{
    let ghost es = entries_of(environment@);
    let n = environment.len();
    let mut i: usize = 0;
    while i < n
        invariant
            i <= n,
            n == environment.len(),
            es == entries_of(environment@),
            distinct_keys(es),
            forall|j: int| 0 <= j < i ==> es[j].0 != key@,
        decreases n - i,
    {
        let pair = &environment[i];
        if pair.0 == *key {
            proof {
                assert(es[i as int].0 == key@);
                lemma_map_of_index(es, i as int);
            }
            return Some(&pair.1);
        }
        i += 1;
    }
    proof {
        lemma_map_of_contains(es, key@);
    }
    None
}

impl Module {
    /// The module's entry point: the statement named `main`, if any.
    pub fn entry(&self) -> (r: Option<&Statement>)
        requires
            self.wf(),
        ensures
            match r {
                Some(s) => {
                    &&& self.deep().environment.contains_key("main"@)
                    &&& s.deep() == self.deep().environment["main"@]
                },
                None => !self.deep().environment.contains_key("main"@),
            },
    {
        let key = String::from_str("main");
        env_get(&self.environment, &key)
    }

    /// The module's imports, in the environment's storage order.
    pub fn imports(&self) -> (r: Option<Vec<&Statement>>)
        ensures
            r matches Some(v) && deep_refs(v@) == imports_of(self.entries()),
    {
        let mut picked: Vec<&Statement> = Vec::new();
        let ghost es = self.entries();
        proof {
            assert(deep_refs(picked@) =~= imports_of(es.subrange(0, 0)));
        }
        let n = self.environment.len();
        let mut i: usize = 0;
        while i < n
            invariant
                i <= n,
                n == self.environment.len(),
                es == self.entries(),
                deep_refs(picked@) == imports_of(es.subrange(0, i as int)),
            decreases n - i,
        {
            let ghost prev = picked@;
            let pair = &self.environment[i];
            match &pair.1 {
                Statement::Import { .. } => {
                    picked.push(&pair.1);
                },
                _ => {},
            }
            i += 1;
            proof {
                assert(es.subrange(0, i as int).drop_last() =~= es.subrange(0, i - 1));
                assert(es.subrange(0, i as int).last() == es[i - 1]);
                if picked@.len() > prev.len() {
                    assert(deep_refs(picked@) =~= deep_refs(prev).push(picked@.last().deep()));
                } else {
                    assert(deep_refs(picked@) =~= deep_refs(prev));
                }
            }
        }
        proof {
            assert(es.subrange(0, n as int) =~= es);
        }
        Some(picked)
    }

    /// The module's functions other than `main`, in the environment's
    /// storage order.
    pub fn functions(&self) -> (r: Option<Vec<&Statement>>)
        ensures
            r matches Some(v) && deep_refs(v@) == functions_of(self.entries()),
    {
        let mut picked: Vec<&Statement> = Vec::new();
        let main_name = String::from_str("main");
        let ghost es = self.entries();
        proof {
            assert(deep_refs(picked@) =~= functions_of(es.subrange(0, 0)));
        }
        let n = self.environment.len();
        let mut i: usize = 0;
        while i < n
            invariant
                i <= n,
                n == self.environment.len(),
                es == self.entries(),
                main_name@ == "main"@,
                deep_refs(picked@) == functions_of(es.subrange(0, i as int)),
            decreases n - i,
        {
            let ghost prev = picked@;
            let pair = &self.environment[i];
            match &pair.1 {
                Statement::Function { name, .. } => {
                    if !(*name == main_name) {
                        picked.push(&pair.1);
                    }
                },
                _ => {},
            }
            i += 1;
            proof {
                assert(es.subrange(0, i as int).drop_last() =~= es.subrange(0, i - 1));
                assert(es.subrange(0, i as int).last() == es[i - 1]);
                assert(es[i - 1].1 == pair.1.deep());
                if picked@.len() > prev.len() {
                    assert(es[i - 1].1 matches StatementV::Function { name, .. } && name
                        != "main"@);
                    assert(deep_refs(picked@) =~= deep_refs(prev).push(picked@.last().deep()));
                } else {
                    assert(deep_refs(picked@) =~= deep_refs(prev));
                }
            }
        }
        proof {
            assert(es.subrange(0, n as int) =~= es);
        }
        Some(picked)
    }

    /// The module's type declarations, in the environment's storage order.
    pub fn types(&self) -> (r: Option<Vec<&Statement>>)
        ensures
            r matches Some(v) && deep_refs(v@) == types_of(self.entries()),
    {
        let mut picked: Vec<&Statement> = Vec::new();
        let ghost es = self.entries();
        proof {
            assert(deep_refs(picked@) =~= types_of(es.subrange(0, 0)));
        }
        let n = self.environment.len();
        let mut i: usize = 0;
        while i < n
            invariant
                i <= n,
                n == self.environment.len(),
                es == self.entries(),
                deep_refs(picked@) == types_of(es.subrange(0, i as int)),
            decreases n - i,
        {
            let ghost prev = picked@;
            let pair = &self.environment[i];
            match &pair.1 {
                Statement::Type { .. } => {
                    picked.push(&pair.1);
                },
                _ => {},
            }
            i += 1;
            proof {
                assert(es.subrange(0, i as int).drop_last() =~= es.subrange(0, i - 1));
                assert(es.subrange(0, i as int).last() == es[i - 1]);
                if picked@.len() > prev.len() {
                    assert(deep_refs(picked@) =~= deep_refs(prev).push(picked@.last().deep()));
                } else {
                    assert(deep_refs(picked@) =~= deep_refs(prev));
                }
            }
        }
        proof {
            assert(es.subrange(0, n as int) =~= es);
        }
        Some(picked)
    }
}

/// The environment a module's children build to: each child must be a
/// `statement` production that builds to a non-`Error` statement, inserted
/// under its name in source order — so of statements sharing a name, the
/// last wins.
pub open spec fn env_fold(cs: Seq<NodeV>) -> Option<Map<Seq<char>, StatementV>>
    decreases cs,
{
    if cs.len() == 0 {
        Some(Map::empty())
    } else {
        match env_fold(cs.drop_last()) {
            None => None,
            Some(env) => {
                let c = cs.last();
                if c.tag != Tag::Statement {
                    None
                } else {
                    match spec_statement(c) {
                        None => None,
                        Some(s) => if s is Error {
                            None
                        } else {
                            Some(env.insert(spec_statement_name(s), s))
                        },
                    }
                }
            },
        }
    }
}

/// The module a `module` node and a module name build to.
pub open spec fn spec_module(name: Seq<char>, n: NodeV) -> Option<ModuleV> {
    match env_fold(n.children) {
        None => None,
        Some(env) => Some(ModuleV { name, environment: env }),
    }
}

/// Once a prefix of a module's children fails to build, the whole module
/// fails.
proof fn lemma_env_fold_fail(cs: Seq<NodeV>, j: int)
    requires
        0 <= j <= cs.len(),
        env_fold(cs.subrange(0, j)) is None,
    ensures
        env_fold(cs) is None,
    decreases cs.len() - j,
{
    if j == cs.len() {
        assert(cs.subrange(0, j) =~= cs);
    } else {
        assert(cs.subrange(0, j + 1).drop_last() =~= cs.subrange(0, j));
        lemma_env_fold_fail(cs, j + 1);
    }
}

/// Last write wins: when an environment is built from statements of which
/// the one at position `j` is the last to carry its name, looking that
/// name up yields exactly that statement — any earlier statement of the
/// same name, such as the one at position `i`, has been replaced.
pub proof fn lemma_last_write_wins(cs: Seq<NodeV>, i: int, j: int)
    requires
        env_fold(cs) is Some,
        0 <= i < j < cs.len(),
        spec_statement_name(spec_statement(cs[i]).unwrap()) == spec_statement_name(
            spec_statement(cs[j]).unwrap(),
        ),
        forall|k: int|
            j < k < cs.len() ==> spec_statement_name((#[trigger] spec_statement(cs[k])).unwrap())
                != spec_statement_name(spec_statement(cs[j]).unwrap()),
    ensures
        env_fold(cs).unwrap().contains_key(spec_statement_name(spec_statement(cs[j]).unwrap())),
        env_fold(cs).unwrap()[spec_statement_name(spec_statement(cs[j]).unwrap())]
            == spec_statement(cs[j]).unwrap(),
    decreases cs.len(),
{
    let name = spec_statement_name(spec_statement(cs[j]).unwrap());
    if j == cs.len() - 1 {
        assert(cs.last() == cs[j]);
    } else {
        assert(cs.last() == cs[cs.len() - 1]);
        assert(spec_statement_name(spec_statement(cs[cs.len() - 1]).unwrap()) != name);
        assert(forall|k: int| 0 <= k < cs.len() - 1 ==> cs.drop_last()[k] == cs[k]);
        lemma_last_write_wins(cs.drop_last(), i, j);
    }
}

/// Inserts a statement into the environment under the given key: the
/// existing entry of that key is replaced in place, a fresh key is
/// appended.
fn env_insert(environment: &mut Vec<(String, Statement)>, key: String, s: Statement)
    requires
        distinct_keys(entries_of(old(environment)@)),
    ensures
        distinct_keys(entries_of(final(environment)@)),
        map_of(entries_of(final(environment)@)) == map_of(entries_of(old(environment)@)).insert(
            key@,
            s.deep(),
        ),
        forall|i: int|
            0 <= i < entries_of(final(environment)@).len() ==> ((#[trigger] entries_of(
                final(environment)@,
            )[i]) == (key@, s.deep()) || (0 <= i < entries_of(old(environment)@).len()
                && entries_of(final(environment)@)[i] == entries_of(old(environment)@)[i])),
{
    let ghost old_es = entries_of(environment@);
    let n = environment.len();
    let mut i: usize = 0;
    while i < n
        invariant
            i <= n,
            n == environment.len(),
            environment@ == old(environment)@,
            old_es == entries_of(environment@),
            distinct_keys(old_es),
            forall|j: int| 0 <= j < i ==> old_es[j].0 != key@,
        decreases n - i,
    {
        if environment[i].0 == key {
            proof {
                assert(old_es[i as int].0 == key@);
            }
            environment.remove(i);
            environment.insert(i, (key, s));
            proof {
                let es2 = old_es.update(i as int, (old_es[i as int].0, s.deep()));
                assert(entries_of(environment@) =~= es2);
                lemma_map_of_update(old_es, i as int, s.deep());
                assert(forall|j: int| 0 <= j < es2.len() ==> (#[trigger] es2[j]).0 == old_es[j].0);
                assert(distinct_keys(es2));
            }
            return ;
        }
        i += 1;
    }
    environment.push((key, s));
    proof {
        assert(entries_of(environment@).drop_last() =~= old_es);
        assert(entries_of(environment@).last() == (key@, s.deep()));
        assert(forall|j: int|
            0 <= j < old_es.len() ==> #[trigger] entries_of(environment@)[j] == old_es[j]);
        assert(distinct_keys(entries_of(environment@)));
        lemma_map_of_contains(old_es, key@);
    }
}

/// Assembles a module: each child of the `module` node must be a
/// `statement` production; its statement is built and inserted into the
/// environment under its name, later statements replacing earlier ones of
/// the same name.  A child of another production, a failing statement
/// build, or the `Error` sentinel is an internal-consistency failure.
pub fn parse(name: &str, module: &ParseNode) -> (r: Result<Module, ParseFailure>)
    ensures
        match r {
            Ok(m) => {
                &&& spec_module(name@, module.deep()) == Some(m.deep())
                &&& m.wf()
            },
            Err(e) => {
                &&& spec_module(name@, module.deep()) is None
                &&& e == ParseFailure::InternalInconsistency
            },
        },
{
    let mut environment: Vec<(String, Statement)> = Vec::new();
    proof {
        lemma_deep_nodes(module.children@);
        assert(entries_of(environment@) =~= Seq::<(Seq<char>, StatementV)>::empty());
    }
    let ghost cs = module.deep().children;
    let n = module.children.len();
    let mut i: usize = 0;
    while i < n
        invariant
            i <= n,
            n == module.children.len(),
            cs == module.deep().children,
            cs.len() == module.children@.len(),
            forall|j: int| 0 <= j < cs.len() ==> cs[j] == module.children@[j].deep(),
            env_fold(cs.subrange(0, i as int)) == Some(map_of(entries_of(environment@))),
            distinct_keys(entries_of(environment@)),
            forall|j: int|
                0 <= j < entries_of(environment@).len() ==> (#[trigger] entries_of(
                    environment@,
                )[j]).0 == spec_statement_name(entries_of(environment@)[j].1),
            forall|j: int|
                0 <= j < entries_of(environment@).len() ==> !((#[trigger] entries_of(
                    environment@,
                )[j]).1 is Error),
        decreases n - i,
    {
        let ghost c = cs[i as int];
        let ghost prev_entries = entries_of(environment@);
        let child = &module.children[i];
        match child.tag {
            Tag::Statement => {},
            _ => {
                proof {
                    assert(c == child.deep());
                    assert(cs.subrange(0, i + 1).drop_last() =~= cs.subrange(0, i as int));
                    assert(cs.subrange(0, i + 1).last() == c);
                    assert(env_fold(cs.subrange(0, i + 1)) is None);
                    lemma_env_fold_fail(cs, i + 1);
                }
                return Err(ParseFailure::InternalInconsistency);
            },
        }
        let s = match crate::statement::parse(child) {
            Ok(s) => s,
            Err(e) => {
                proof {
                    assert(c == child.deep());
                    assert(cs.subrange(0, i + 1).drop_last() =~= cs.subrange(0, i as int));
                    assert(cs.subrange(0, i + 1).last() == c);
                    assert(env_fold(cs.subrange(0, i + 1)) is None);
                    lemma_env_fold_fail(cs, i + 1);
                }
                return Err(e);
            },
        };
        let key: String = match &s {
            Statement::Import { name, .. } => name.clone(),
            Statement::Type { name, .. } => name.clone(),
            Statement::Function { name, .. } => name.clone(),
            Statement::Error => {
                proof {
                    assert(c == child.deep());
                    assert(cs.subrange(0, i + 1).drop_last() =~= cs.subrange(0, i as int));
                    assert(cs.subrange(0, i + 1).last() == c);
                    assert(env_fold(cs.subrange(0, i + 1)) is None);
                    lemma_env_fold_fail(cs, i + 1);
                }
                return Err(ParseFailure::InternalInconsistency);
            },
        };
        proof {
            assert(key@ == spec_statement_name(s.deep()));
            assert(!(s.deep() is Error));
        }
        env_insert(&mut environment, key, s);
        i += 1;
        proof {
            assert(c == child.deep());
            assert(cs.subrange(0, i as int).drop_last() =~= cs.subrange(0, i - 1));
            assert(cs.subrange(0, i as int).last() == c);
        }
    }
    proof {
        assert(cs.subrange(0, n as int) =~= cs);
    }
    let module_name = String::from_str(name);
    Ok(Module { name: module_name, environment })
}

} // verus!
