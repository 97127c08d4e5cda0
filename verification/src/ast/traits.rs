use vstd::prelude::*;
use crate::ast::{Definition, DefinitionKind, Visibility};
use crate::ast::function::FunctionDefinition;
use crate::text::same_text;

verus! {

/// A trait: its functions, each under its name (at most one per name).
#[derive(Debug, PartialEq)]
pub struct Trait {
    pub functions: Vec<(String, FunctionDefinition)>,
}

/// Collects the functions of a trait.
#[derive(Debug, PartialEq)]
pub struct TraitBuilder {
    pub ident: String,
    pub visibility: Visibility,
    pub functions: Vec<(String, FunctionDefinition)>,
}

/// No two functions share a name.
pub open spec fn names_unique(fs: Seq<(String, FunctionDefinition)>) -> bool {
    forall|i: int, j: int| 0 <= i < j < fs.len() ==> (#[trigger] fs[i]).0@ != (#[trigger] fs[j]).0@
}

/// Puts `f` under `name`: in place of the first function of that name, or
/// at the end when there is none.
pub fn insert_function(fs: &mut Vec<(String, FunctionDefinition)>, name: String, f: FunctionDefinition)
    ensures
        (forall|i: int| 0 <= i < old(fs)@.len() ==> (#[trigger] old(fs)@[i]).0@ != name@) ==> final(fs)@ == old(
            fs,
        )@.push((name, f)),
        forall|i: int|
            0 <= i < old(fs)@.len() && (#[trigger] old(fs)@[i]).0@ == name@ && (forall|j: int|
                0 <= j < i ==> (#[trigger] old(fs)@[j]).0@ != name@) ==> final(fs)@ == old(fs)@.update(i, (name, f)),
        names_unique(old(fs)@) ==> names_unique(final(fs)@),
{
    let mut i: usize = 0;
    while i < fs.len()
        invariant
            i <= fs@.len(),
            fs@ == old(fs)@,
            forall|j: int| 0 <= j < i ==> (#[trigger] fs@[j]).0@ != name@,
        decreases fs@.len() - i,
    {
        if same_text(fs[i].0.as_str(), name.as_str()) {
            let ghost before = fs@;
            fs.set(i, (name, f));
            proof {
                if names_unique(before) {
                    assert forall|a: int, b: int| 0 <= a < b < fs@.len() implies (#[trigger] fs@[a]).0@ != (
                    #[trigger] fs@[b]).0@ by {
                        if a != i && b != i {
                            assert(before[a] == fs@[a] && before[b] == fs@[b]);
                        } else if a == i {
                            assert(before[b] == fs@[b]);
                            assert(before[a].0@ == fs@[a].0@);
                        } else {
                            assert(before[a] == fs@[a]);
                            assert(before[b].0@ == fs@[b].0@);
                        }
                    }
                }
            }
            return;
        }
        i += 1;
    }
    fs.push((name, f));
    proof {
        if names_unique(old(fs)@) {
            assert forall|a: int, b: int| 0 <= a < b < fs@.len() implies (#[trigger] fs@[a]).0@ != (
            #[trigger] fs@[b]).0@ by {
                if b < old(fs)@.len() {
                    assert(old(fs)@[a] == fs@[a] && old(fs)@[b] == fs@[b]);
                } else {
                    assert(fs@[a] == old(fs)@[a]);
                }
            }
        }
    }
}

impl TraitBuilder {
    /// A private trait named `ident` with no functions.
    pub fn new(ident: String) -> (r: Self)
        ensures
            r.ident == ident,
            r.visibility == Visibility::Private,
            r.functions@.len() == 0,
    {
        TraitBuilder { ident, visibility: Visibility::Private, functions: Vec::new() }
    }

    /// The trait definition.
    pub fn build_def(self) -> (r: Definition)
        ensures
            r.kind == DefinitionKind::Trait(Trait { functions: self.functions }),
            r.visibility == self.visibility,
            r.name == self.ident,
    {
        Definition {
            kind: DefinitionKind::Trait(Trait { functions: self.functions }),
            visibility: self.visibility,
            name: self.ident,
        }
    }
}

} // verus!
