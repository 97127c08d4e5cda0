use vstd::prelude::*;
use crate::ast::{Definition, DefinitionKind, Visibility};
use crate::ast::module::{Module, ModuleKind};
use crate::ast::project::Project;
use crate::ast::traits::Trait;
use crate::text::string_of;

verus! {

/// The names of the operator traits of the core library, in order.
pub open spec fn operation_trait_names() -> Seq<Seq<char>> {
    seq![seq!['A', 'd', 'd'], seq!['M', 'u', 'l'], seq!['S', 'u', 'b'], seq!['D', 'i', 'v']]
}

fn empty_trait(name: &str) -> (r: Definition)
    ensures
        r.name@ == name@,
        r.visibility == Visibility::Public,
        r.kind matches DefinitionKind::Trait(t) && t.functions@.len() == 0,
{
    Definition { name: string_of(name), visibility: Visibility::Public, kind: DefinitionKind::Trait(Trait { functions: Vec::new() }) }
}

/// The module `op` of the core library: the public, empty traits `Add`,
/// `Mul`, `Sub` and `Div`.
pub fn create_operation_module() -> (r: Module)
    ensures
        r.imports@.len() == 0,
        r.impls@.len() == 0,
        r.trait_impls@.len() == 0,
        r.definitions@.len() == 4,
        forall|i: int| 0 <= i < 4 ==> {
            &&& (#[trigger] r.definitions@[i]).name@ == operation_trait_names()[i]
            &&& r.definitions@[i].visibility == Visibility::Public
            &&& r.definitions@[i].kind matches DefinitionKind::Trait(t) && t.functions@.len() == 0
        },
{
    proof {
        reveal_strlit("Add");
        reveal_strlit("Mul");
        reveal_strlit("Sub");
        reveal_strlit("Div");
        assert("Add"@ =~= operation_trait_names()[0]);
        assert("Mul"@ =~= operation_trait_names()[1]);
        assert("Sub"@ =~= operation_trait_names()[2]);
        assert("Div"@ =~= operation_trait_names()[3]);
    }
    let mut definitions: Vec<Definition> = Vec::new();
    definitions.push(empty_trait("Add"));
    definitions.push(empty_trait("Mul"));
    definitions.push(empty_trait("Sub"));
    definitions.push(empty_trait("Div"));
    Module { kind: ModuleKind::InFile, imports: Vec::new(), definitions, impls: Vec::new(), trait_impls: Vec::new() }
}

/// The core library as a project in memory: `core`, version 0.1.0, whose
/// root module defines the module `op` (see `create_operation_module`).
pub fn create_core_project() -> (r: Project)
    ensures
        r.name@ == seq!['c', 'o', 'r', 'e'],
        r.version == (0usize, 1usize, 0usize),
        r.edition == (0usize, 1usize, 0usize),
        r.external_projects@.len() == 0,
        r.root_module.imports@.len() == 0,
        r.root_module.definitions@.len() == 1,
        r.root_module.definitions@[0].name@ == seq!['o', 'p'],
        r.root_module.definitions@[0].visibility == Visibility::Public,
        r.root_module.definitions@[0].kind is Module,
{
    proof {
        reveal_strlit("core");
        reveal_strlit("op");
    }
    let mut definitions: Vec<Definition> = Vec::new();
    definitions.push(Definition {
        name: string_of("op"),
        visibility: Visibility::Public,
        kind: DefinitionKind::Module(create_operation_module()),
    });
    let root = Module { kind: ModuleKind::InFile, imports: Vec::new(), definitions, impls: Vec::new(), trait_impls: Vec::new() };
    Project { root_module: root, external_projects: Vec::new(), name: string_of("core"), version: (0, 1, 0), edition: (0, 1, 0) }
}

} // verus!
