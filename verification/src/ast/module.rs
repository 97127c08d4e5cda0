use vstd::prelude::*;
use crate::ast::{Definition, DefinitionKind, Implementation, Import, TraitImplementation};
use crate::general::path::{QualifiedName, name_eqv};

verus! {

/// Whether a module's text is in the file that names it, or in a file of
/// its own.
#[derive(Debug, Clone, Copy, PartialEq, Eq, Structural)]
pub enum ModuleKind {
    InFile,
    ExFile,
}

/// A module: its imports, definitions and implementations.
#[derive(Debug, PartialEq)]
pub struct Module {
    pub kind: ModuleKind,
    pub imports: Vec<Import>,
    pub definitions: Vec<Definition>,
    pub impls: Vec<Implementation>,
    pub trait_impls: Vec<TraitImplementation>,
}

/// The paths of the C imports among `imports`, in order.
pub open spec fn own_c_imports(imports: Seq<Import>) -> Seq<QualifiedName>
    decreases imports.len(),
{
    if imports.len() == 0 {
        Seq::empty()
    } else {
        own_c_imports(imports.drop_last()) + if imports.last().c_import {
            seq![imports.last().path]
        } else {
            Seq::empty()
        }
    }
}

/// The C imports of a module: its own, then those of its module
/// definitions, in order and recursively.
pub open spec fn module_c_imports(m: Module) -> Seq<QualifiedName>
    decreases m, m.definitions@.len() + 1,
{
    own_c_imports(m.imports@) + defs_c_imports(m, m.definitions@.len() as int)
}

/// The C imports of the modules among the first `n` definitions of `m`.
pub open spec fn defs_c_imports(m: Module, n: int) -> Seq<QualifiedName>
    decreases m, n,
{
    if n <= 0 || n > m.definitions@.len() {
        Seq::empty()
    } else {
        defs_c_imports(m, n - 1) + match m.definitions@[n - 1].kind {
            DefinitionKind::Module(md) => {
                proof {
                    assert(decreases_to!(m => m.definitions));
                    assert(decreases_to!(m.definitions => m.definitions@));
                    assert(decreases_to!(m.definitions@ => m.definitions@[n - 1]));
                    assert(decreases_to!(m.definitions@[n - 1] => m.definitions@[n - 1].kind));
                }
                module_c_imports(md)
            },
            _ => Seq::empty(),
        }
    }
}

/// Pointwise equivalence of two lists of names.
pub open spec fn names_eqv(a: Seq<QualifiedName>, b: Seq<QualifiedName>) -> bool {
    &&& a.len() == b.len()
    &&& forall|i: int| #![trigger a[i]] 0 <= i < a.len() ==> name_eqv(a[i], b[i])
}

impl Module {
    /// An empty in-file module.
    pub fn new() -> (r: Self)
        ensures
            r.kind == ModuleKind::InFile,
            r.imports@.len() == 0,
            r.definitions@.len() == 0,
            r.impls@.len() == 0,
            r.trait_impls@.len() == 0,
    {
        Module {
            kind: ModuleKind::InFile,
            trait_impls: Vec::new(),
            impls: Vec::new(),
            imports: Vec::new(),
            definitions: Vec::new(),
        }
    }

    /// Adds a (Niebo) import of `path`.
    pub fn add_import(&mut self, path: QualifiedName)
        ensures
            final(self).imports@ == old(self).imports@.push(Import { c_import: false, path }),
            final(self).kind == old(self).kind,
            final(self).definitions == old(self).definitions,
            final(self).impls == old(self).impls,
            final(self).trait_impls == old(self).trait_impls,
    {
        self.imports.push(Import { c_import: false, path });
    }

    /// The paths of all C imports of the module and of the modules defined
    /// in it, recursively, in order.
    pub fn get_c_imports(&self) -> (r: Vec<QualifiedName>)
        ensures
            names_eqv(r@, module_c_imports(*self)),
        decreases self, self.definitions@.len() + 1,
    {
        let mut v: Vec<QualifiedName> = Vec::new();
        let mut i: usize = 0;
        while i < self.imports.len()
            invariant
                i <= self.imports@.len(),
                names_eqv(v@, own_c_imports(self.imports@.take(i as int))),
            decreases self.imports@.len() - i,
        {
            let ghost old_v = v@;
            assert(self.imports@.take(i + 1).drop_last() =~= self.imports@.take(i as int));
            if self.imports[i].c_import {
                let c = self.imports[i].path.copy();
                v.push(c);
                assert(v@.drop_last() == old_v);
            } else {
                assert(v@ == old_v);
            }
            assert(names_eqv(v@, own_c_imports(self.imports@.take(i + 1)))) by {
                let t = own_c_imports(self.imports@.take(i + 1));
                assert forall|k: int| #![trigger v@[k]] 0 <= k < v@.len() implies name_eqv(v@[k], t[k]) by {
                    if k < old_v.len() {
                        assert(v@[k] == old_v[k]);
                    }
                }
            }
            i += 1;
        }
        assert(self.imports@.take(i as int) =~= self.imports@);
        let ghost own = v@;
        let mut d: usize = 0;
        while d < self.definitions.len()
            invariant
                d <= self.definitions@.len(),
                names_eqv(own, own_c_imports(self.imports@)),
                v@.len() >= own.len(),
                v@.take(own.len() as int) == own,
                names_eqv(v@.skip(own.len() as int), defs_c_imports(*self, d as int)),
            decreases self.definitions@.len() - d,
        {
            let ghost old_v = v@;
            if let DefinitionKind::Module(md) = &self.definitions[d].kind {
                proof {
                    assert(decreases_to!(*self => self.definitions));
                    assert(decreases_to!(self.definitions => self.definitions@));
                    assert(decreases_to!(self.definitions@ => self.definitions@[d as int]));
                    assert(decreases_to!(self.definitions@[d as int] => self.definitions@[d as int].kind));
                }
                let mut other = md.get_c_imports();
                let ghost oth = other@;
                v.append(&mut other);
                assert(v@ == old_v + oth);
                assert(v@.take(own.len() as int) =~= own);
                assert(names_eqv(v@.skip(own.len() as int), defs_c_imports(*self, d + 1))) by {
                    let t = defs_c_imports(*self, d + 1);
                    let prev = defs_c_imports(*self, d as int);
                    assert(t == prev + module_c_imports(*md));
                    assert forall|k: int| #![trigger v@.skip(own.len() as int)[k]] 0 <= k < v@.skip(own.len() as int).len()
                        implies name_eqv(v@.skip(own.len() as int)[k], t[k]) by {
                        if k < prev.len() {
                            assert(v@.skip(own.len() as int)[k] == old_v.skip(own.len() as int)[k]);
                        } else {
                            assert(v@.skip(own.len() as int)[k] == oth[k - prev.len()]);
                        }
                    }
                }
            } else {
                assert(defs_c_imports(*self, d + 1) == defs_c_imports(*self, d as int));
            }
            d += 1;
        }
        proof {
            let t = module_c_imports(*self);
            assert(t == own_c_imports(self.imports@) + defs_c_imports(*self, self.definitions@.len() as int));
            assert forall|k: int| #![trigger v@[k]] 0 <= k < v@.len() implies name_eqv(v@[k], t[k]) by {
                if k < own.len() {
                    assert(v@[k] == own[k]);
                } else {
                    assert(v@[k] == v@.skip(own.len() as int)[k - own.len()]);
                }
            }
        }
        v
    }
}

} // verus!
