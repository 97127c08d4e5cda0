pub mod cimports;

use vstd::prelude::*;
use crate::ast::{Definition, DefinitionKind, Import};
use crate::ast::module::{Module, ModuleKind};
use crate::general::path::QualifiedName;
use crate::text::{push_str, same_text, string_of};

verus! {

/// What a library project is built as.
#[derive(Debug, Clone, Copy, PartialEq, Eq, Structural)]
pub enum LibKinds {
    NieboLib,
    LibC,
}

/// The `[lib]` table of a project manifest.
#[derive(Debug, PartialEq, Eq)]
pub struct Lib {
    pub project_type: LibKinds,
}

/// The `[project]` table of a project manifest.
#[derive(Debug, PartialEq, Eq)]
pub struct ManifestProject {
    pub name: String,
    pub version: String,
    pub edition: String,
}

/// A project manifest (`chmura.toml`): the project and, for a library,
/// its `[lib]` table.
#[derive(Debug, PartialEq, Eq)]
pub struct Chmura {
    pub project: ManifestProject,
    pub lib: Option<Lib>,
}

/// A project: its root module, the projects it depends on (each under a
/// name, at most one per name), its name, version and compiler edition.
#[derive(Debug)]
pub struct Project {
    pub root_module: Module,
    pub external_projects: Vec<(String, Project)>,
    pub name: String,
    pub version: (usize, usize, usize),
    pub edition: (usize, usize, usize),
}

/// The traits of the core library that every project imports.
pub open spec fn core_trait_names() -> Seq<Seq<char>> {
    seq![
        seq!['A', 'd', 'd'],
        seq!['N', 'e', 'g'],
        seq!['S', 'u', 'b'],
        seq!['M', 'u', 'l'],
        seq!['D', 'i', 'v'],
        seq!['E', 'q'],
        seq!['N', 'E', 'q'],
        seq!['L', 'E', 'q'],
        seq!['G', 'E', 'q'],
        seq!['L', 'e', 's'],
        seq!['G', 'r', 'e'],
        seq!['C', 'o', 'p', 'y']
    ]
}

pub open spec fn core_text() -> Seq<char> {
    seq!['c', 'o', 'r', 'e']
}

/// `p` is the path made of `parts`, without template arguments.
pub open spec fn path_is(p: QualifiedName, parts: Seq<Seq<char>>) -> bool {
    &&& p.v@.len() == parts.len()
    &&& forall|i: int| 0 <= i < parts.len() ==> (#[trigger] p.v@[i]).ident@ == parts[i] && p.v@[i].template_spec@.len() == 0
}

/// The imports that every project but the core library gets: `core::operations`,
/// then `core::traits::<T>` for each core trait, in order.
pub open spec fn is_core_import(i: Import, k: int) -> bool {
    &&& !i.c_import
    &&& if k == 0 {
        path_is(i.path, seq![core_text(), seq!['o', 'p', 'e', 'r', 'a', 't', 'i', 'o', 'n', 's']])
    } else {
        path_is(i.path, seq![core_text(), seq!['t', 'r', 'a', 'i', 't', 's'], core_trait_names()[k - 1]])
    }
}

/// No two projects in `ps` share a name.
pub open spec fn projects_unique(ps: Seq<(String, Project)>) -> bool {
    forall|i: int, j: int| 0 <= i < j < ps.len() ==> (#[trigger] ps[i]).0@ != (#[trigger] ps[j]).0@
}

/// Whether some project in `ps` has the name `n`.
pub open spec fn has_project(ps: Seq<(String, Project)>, n: Seq<char>) -> bool {
    exists|i: int| 0 <= i < ps.len() && (#[trigger] ps[i]).0@ == n
}

fn path_of(parts: &Vec<&str>) -> (r: QualifiedName)
    ensures
        r.v@.len() == parts@.len(),
        forall|i: int| 0 <= i < parts@.len() ==> (#[trigger] r.v@[i]).ident@ == parts@[i]@ && r.v@[i].template_spec@.len() == 0,
{
    let mut name = QualifiedName::new();
    let mut i: usize = 0;
    while i < parts.len()
        invariant
            i <= parts@.len(),
            name.v@.len() == i,
            forall|j: int| 0 <= j < i ==> (#[trigger] name.v@[j]).ident@ == parts@[j]@ && name.v@[j].template_spec@.len() == 0,
        decreases parts@.len() - i,
    {
        let ghost before = name.v@;
        name.add_ident(parts[i]);
        assert forall|j: int| 0 <= j < i + 1 implies (#[trigger] name.v@[j]).ident@ == parts@[j]@ && name.v@[j].template_spec@.len() == 0 by {
            if j < i {
                assert(name.v@[j] == name.v@.drop_last()[j]);
                assert(before[j] == name.v@[j]);
            }
        }
        i += 1;
    }
    name
}

impl Project {
    /// Adds the imports of the core library to `module`: `core::operations`
    /// and `core::traits::<T>` for `Add`, `Neg`, `Sub`, `Mul`, `Div`, `Eq`,
    /// `NEq`, `LEq`, `GEq`, `Les`, `Gre` and `Copy`, after its own imports.
    pub fn add_core_imports(module: &mut Module)
        ensures
            final(module).imports@.len() == old(module).imports@.len() + 13,
            forall|i: int| 0 <= i < old(module).imports@.len() ==> final(module).imports@[i] == old(module).imports@[i],
            forall|k: int| 0 <= k < 13 ==> is_core_import(#[trigger] final(module).imports@[old(module).imports@.len() + k], k),
            final(module).definitions == old(module).definitions,
            final(module).kind == old(module).kind,
            final(module).impls == old(module).impls,
            final(module).trait_impls == old(module).trait_impls,
    {
        proof {
            reveal_strlit("core");
            reveal_strlit("operations");
            reveal_strlit("traits");
            reveal_strlit("Add");
            reveal_strlit("Neg");
            reveal_strlit("Sub");
            reveal_strlit("Mul");
            reveal_strlit("Div");
            reveal_strlit("Eq");
            reveal_strlit("NEq");
            reveal_strlit("LEq");
            reveal_strlit("GEq");
            reveal_strlit("Les");
            reveal_strlit("Gre");
            reveal_strlit("Copy");
        }
        let names: Vec<&str> = vec!["Add", "Neg", "Sub", "Mul", "Div", "Eq", "NEq", "LEq", "GEq", "Les", "Gre", "Copy"];
        assert(forall|k: int| 0 <= k < 12 ==> (#[trigger] names@[k])@ == core_trait_names()[k]) by {
            assert("Add"@ =~= core_trait_names()[0]);
            assert("Neg"@ =~= core_trait_names()[1]);
            assert("Sub"@ =~= core_trait_names()[2]);
            assert("Mul"@ =~= core_trait_names()[3]);
            assert("Div"@ =~= core_trait_names()[4]);
            assert("Eq"@ =~= core_trait_names()[5]);
            assert("NEq"@ =~= core_trait_names()[6]);
            assert("LEq"@ =~= core_trait_names()[7]);
            assert("GEq"@ =~= core_trait_names()[8]);
            assert("Les"@ =~= core_trait_names()[9]);
            assert("Gre"@ =~= core_trait_names()[10]);
            assert("Copy"@ =~= core_trait_names()[11]);
        }
        assert("core"@ =~= core_text());
        assert("operations"@ =~= seq!['o', 'p', 'e', 'r', 'a', 't', 'i', 'o', 'n', 's']);
        assert("traits"@ =~= seq!['t', 'r', 'a', 'i', 't', 's']);
        let ghost n0 = module.imports@.len();
        let ops = path_of(&vec!["core", "operations"]);
        module.add_import(ops);
        let mut k: usize = 0;
        while k < 12
            invariant
                names@.len() == 12,
                forall|k2: int| 0 <= k2 < 12 ==> (#[trigger] names@[k2])@ == core_trait_names()[k2],
                "core"@ == core_text(),
                "traits"@ == seq!['t', 'r', 'a', 'i', 't', 's'],
                n0 == old(module).imports@.len(),
                module.imports@.len() == n0 + 1 + k,
                k <= 12,
                forall|i: int| 0 <= i < n0 ==> module.imports@[i] == old(module).imports@[i],
                forall|j: int| 0 <= j < k + 1 ==> is_core_import(#[trigger] module.imports@[n0 + j], j),
                module.definitions == old(module).definitions,
                module.kind == old(module).kind,
                module.impls == old(module).impls,
                module.trait_impls == old(module).trait_impls,
            decreases 12 - k,
        {
            let p = path_of(&vec!["core", "traits", names[k]]);
            module.add_import(p);
            k += 1;
        }
    }

    /// Adds (or replaces) the dependency `name`.
    pub fn add_external_project(&mut self, name: String, project: Project)
        ensures
            has_project(final(self).external_projects@, name@),
            forall|m: Seq<char>| has_project(old(self).external_projects@, m) ==> has_project(final(self).external_projects@, m),
            forall|m: Seq<char>| has_project(final(self).external_projects@, m) ==> m == name@ || has_project(old(self).external_projects@, m),
            final(self).root_module == old(self).root_module,
            final(self).name == old(self).name,
            final(self).version == old(self).version,
            final(self).edition == old(self).edition,
            projects_unique(old(self).external_projects@) ==> projects_unique(final(self).external_projects@),
    {
        let mut i: usize = 0;
        while i < self.external_projects.len()
            invariant
                i <= self.external_projects@.len(),
                self.external_projects@ == old(self).external_projects@,
                self.root_module == old(self).root_module,
                self.name == old(self).name,
                self.version == old(self).version,
                self.edition == old(self).edition,
                forall|j: int| 0 <= j < i ==> (#[trigger] self.external_projects@[j]).0@ != name@,
            decreases self.external_projects@.len() - i,
        {
            if same_text(self.external_projects[i].0.as_str(), name.as_str()) {
                let ghost before = self.external_projects@;
                let ghost nt = name@;
                self.external_projects.set(i, (name, project));
                proof {
                    assert(self.external_projects@[i as int].0@ == nt);
                    assert forall|m: Seq<char>| has_project(before, m) implies has_project(self.external_projects@, m) by {
                        let j = choose|j: int| 0 <= j < before.len() && (#[trigger] before[j]).0@ == m;
                        if j == i {
                            assert(self.external_projects@[i as int].0@ == m);
                        } else {
                            assert(self.external_projects@[j] == before[j]);
                        }
                    }
                    assert forall|m: Seq<char>| has_project(self.external_projects@, m) implies m == nt || has_project(before, m) by {
                        let j = choose|j: int| 0 <= j < self.external_projects@.len() && (#[trigger] self.external_projects@[j]).0@ == m;
                        if j != i {
                            assert(self.external_projects@[j] == before[j]);
                        }
                    }
                    if projects_unique(before) {
                        assert forall|a: int, b: int| 0 <= a < b < self.external_projects@.len() implies (#[trigger] self.external_projects@[a]).0@
                            != (#[trigger] self.external_projects@[b]).0@ by {
                            if a != i && b != i {
                                assert(self.external_projects@[a] == before[a] && self.external_projects@[b] == before[b]);
                            } else if a == i {
                                assert(self.external_projects@[b] == before[b]);
                                assert(before[a].0@ == nt);
                            } else {
                                assert(self.external_projects@[a] == before[a]);
                                assert(before[b].0@ == nt);
                            }
                        }
                    }
                }
                return;
            }
            i += 1;
        }
        let ghost before = self.external_projects@;
        let ghost nt = name@;
        self.external_projects.push((name, project));
        proof {
            assert(self.external_projects@[before.len() as int].0@ == nt);
            assert forall|m: Seq<char>| has_project(before, m) implies has_project(self.external_projects@, m) by {
                let j = choose|j: int| 0 <= j < before.len() && (#[trigger] before[j]).0@ == m;
                assert(self.external_projects@[j] == before[j]);
            }
            assert forall|m: Seq<char>| has_project(self.external_projects@, m) implies m == nt || has_project(before, m) by {
                let j = choose|j: int| 0 <= j < self.external_projects@.len() && (#[trigger] self.external_projects@[j]).0@ == m;
                if j < before.len() {
                    assert(self.external_projects@[j] == before[j]);
                }
            }
            if projects_unique(before) {
                assert forall|a: int, b: int| 0 <= a < b < self.external_projects@.len() implies (#[trigger] self.external_projects@[a]).0@
                    != (#[trigger] self.external_projects@[b]).0@ by {
                    assert(self.external_projects@[a] == before[a]);
                    if b < before.len() {
                        assert(self.external_projects@[b] == before[b]);
                    }
                }
            }
        }
    }

    /// A project other than the core library gets the core imports in its
    /// root module and, when `core` is given, the core library as the
    /// dependency `core`; the core library itself is left as it is.
    pub fn with_core_dependency(project: Project, core: Option<Project>) -> (r: Project)
        ensures
            project.name@ == core_text() ==> r == project,
            r.version == project.version,
            r.edition == project.edition,
            project.name@ != core_text() ==> {
                &&& r.name == project.name
                &&& r.root_module.imports@.len() == project.root_module.imports@.len() + 13
                &&& forall|k: int| 0 <= k < 13 ==> is_core_import(#[trigger] r.root_module.imports@[project.root_module.imports@.len() + k], k)
                &&& r.root_module.definitions == project.root_module.definitions
                &&& (core is Some ==> has_project(r.external_projects@, core_text()))
                &&& (core is None ==> r.external_projects == project.external_projects)
            },
    {
        proof {
            reveal_strlit("core");
            assert("core"@ =~= core_text());
        }
        if same_text(project.name.as_str(), "core") {
            return project;
        }
        let mut project = project;
        Self::add_core_imports(&mut project.root_module);
        if let Some(c) = core {
            project.add_external_project(string_of("core"), c);
        }
        project
    }

    /// The project that a single script makes: its module with the core
    /// imports, no name, version and edition 0.1.0, and the core library as
    /// dependency when given.
    pub fn load_script(root: Module, core: Option<Project>) -> (r: Project)
        ensures
            r.name@.len() == 0,
            r.version == (0usize, 1usize, 0usize),
            r.edition == (0usize, 1usize, 0usize),
            r.root_module.imports@.len() == root.imports@.len() + 13,
            forall|k: int| 0 <= k < 13 ==> is_core_import(#[trigger] r.root_module.imports@[root.imports@.len() + k], k),
            r.root_module.definitions == root.definitions,
            core is Some ==> has_project(r.external_projects@, core_text()),
            core is None ==> r.external_projects@.len() == 0,
    {
        let mut root = root;
        Self::add_core_imports(&mut root);
        let mut project = Project {
            root_module: root,
            external_projects: Vec::new(),
            name: String::new(),
            version: (0, 1, 0),
            edition: (0, 1, 0),
        };
        if let Some(c) = core {
            proof {
                reveal_strlit("core");
                assert("core"@ =~= core_text());
            }
            project.add_external_project(string_of("core"), c);
        }
        project
    }

    /// The project described by a manifest and its root module (with its
    /// file modules loaded): the manifest's name, version and edition
    /// 0.1.0, and, when `include_core`, the core dependency (see
    /// `with_core_dependency`).
    pub fn load_inner(chmura: Chmura, root: Module, include_core: bool, core: Option<Project>) -> (r: Project)
        ensures
            r.name == chmura.project.name,
            r.version == (0usize, 1usize, 0usize),
            r.edition == (0usize, 1usize, 0usize),
            !include_core || chmura.project.name@ == core_text() ==> r.root_module == root && r.external_projects@.len() == 0,
            include_core && chmura.project.name@ != core_text() ==> {
                &&& r.root_module.imports@.len() == root.imports@.len() + 13
                &&& forall|k: int| 0 <= k < 13 ==> is_core_import(#[trigger] r.root_module.imports@[root.imports@.len() + k], k)
                &&& (core is Some ==> has_project(r.external_projects@, core_text()))
            },
    {
        let project = Project {
            root_module: root,
            external_projects: Vec::new(),
            name: chmura.project.name,
            version: (0, 1, 0),
            edition: (0, 1, 0),
        };
        if include_core {
            return Self::with_core_dependency(project, core);
        }
        project
    }
}

/// The file that holds a project's root module: `lib.nb` for a library,
/// else `main.nb`.
pub fn entry_file_name(chmura: &Chmura) -> (r: String)
    ensures
        chmura.lib is Some ==> r@ == seq!['l', 'i', 'b', '.', 'n', 'b'],
        chmura.lib is None ==> r@ == seq!['m', 'a', 'i', 'n', '.', 'n', 'b'],
{
    proof {
        reveal_strlit("lib.nb");
        reveal_strlit("main.nb");
        assert("lib.nb"@ =~= seq!['l', 'i', 'b', '.', 'n', 'b']);
        assert("main.nb"@ =~= seq!['m', 'a', 'i', 'n', '.', 'n', 'b']);
    }
    if chmura.lib.is_some() {
        string_of("lib.nb")
    } else {
        string_of("main.nb")
    }
}

/// The file that holds the module `name`: `name.nb`.
pub fn module_file_name(name: &str) -> (r: String)
    ensures
        r@ == name@ + seq!['.', 'n', 'b'],
{
    proof {
        reveal_strlit(".nb");
        assert(".nb"@ =~= seq!['.', 'n', 'b']);
    }
    let mut s = string_of(name);
    push_str(&mut s, ".nb");
    s
}

/// The modules of `module` kept in files of their own, not loaded yet: the
/// index of each such definition and its name, in order.
pub fn file_modules(module: &Module) -> (r: Vec<(usize, String)>)
    ensures
        forall|j: int| 0 <= j < r@.len() ==> {
            let (i, n) = #[trigger] r@[j];
            &&& i < module.definitions@.len()
            &&& module.definitions@[i as int].kind matches DefinitionKind::Module(md) && md.kind == ModuleKind::ExFile
            &&& n@ == module.definitions@[i as int].name@
        },
        forall|i: int| #![trigger module.definitions@[i]] 0 <= i < module.definitions@.len() && (module.definitions@[i].kind matches DefinitionKind::Module(md)
            && md.kind == ModuleKind::ExFile) ==> exists|j: int| 0 <= j < r@.len() && (#[trigger] r@[j]).0 == i,
        forall|j: int, k: int| 0 <= j < k < r@.len() ==> (#[trigger] r@[j]).0 < (#[trigger] r@[k]).0,
{
    let mut out: Vec<(usize, String)> = Vec::new();
    let mut i: usize = 0;
    while i < module.definitions.len()
        invariant
            i <= module.definitions@.len(),
            forall|j: int| 0 <= j < out@.len() ==> {
                let (i2, n) = #[trigger] out@[j];
                &&& i2 < i
                &&& module.definitions@[i2 as int].kind matches DefinitionKind::Module(md) && md.kind == ModuleKind::ExFile
                &&& n@ == module.definitions@[i2 as int].name@
            },
            forall|i2: int| #![trigger module.definitions@[i2]] 0 <= i2 < i && (module.definitions@[i2].kind matches DefinitionKind::Module(md)
                && md.kind == ModuleKind::ExFile) ==> exists|j: int| 0 <= j < out@.len() && (#[trigger] out@[j]).0 == i2,
            forall|j: int, k: int| 0 <= j < k < out@.len() ==> (#[trigger] out@[j]).0 < (#[trigger] out@[k]).0,
        decreases module.definitions@.len() - i,
    {
        let d = &module.definitions[i];
        if let DefinitionKind::Module(md) = &d.kind {
            if md.kind == ModuleKind::ExFile {
                let ghost before = out@;
                out.push((i, string_of(d.name.as_str())));
                assert(out@[before.len() as int].0 == i);
                assert forall|i2: int| #![trigger module.definitions@[i2]] 0 <= i2 < i + 1 && (module.definitions@[i2].kind matches DefinitionKind::Module(md)
                    && md.kind == ModuleKind::ExFile) implies exists|j: int| 0 <= j < out@.len() && (#[trigger] out@[j]).0 == i2 by {
                    if i2 < i {
                        let j = choose|j: int| 0 <= j < before.len() && (#[trigger] before[j]).0 == i2;
                        assert(out@[j] == before[j]);
                    } else {
                        assert(out@[before.len() as int].0 == i2);
                    }
                }
            }
        }
        i += 1;
    }
    out
}

/// Puts the loaded module `md` in place of the file module defined at
/// `index`.
pub fn set_file_module(module: &mut Module, index: usize, md: Module)
    requires
        index < old(module).definitions@.len(),
    ensures
        final(module).definitions@.len() == old(module).definitions@.len(),
        final(module).definitions@[index as int].kind == DefinitionKind::Module(md),
        final(module).definitions@[index as int].name == old(module).definitions@[index as int].name,
        final(module).definitions@[index as int].visibility == old(module).definitions@[index as int].visibility,
        forall|i: int| 0 <= i < final(module).definitions@.len() && i != index ==> final(module).definitions@[i] == old(module).definitions@[i],
        final(module).imports == old(module).imports,
{
    let old_def = module.definitions.remove(index);
    let def = Definition { kind: DefinitionKind::Module(md), visibility: old_def.visibility, name: old_def.name };
    module.definitions.insert(index, def);
}

} // verus!
