//! What a platform offers to programs: external functions, and capabilities.
use vstd::prelude::*;

use crate::ast::{type_views, Type, TypeView};
use crate::capability::{Capability, CapabilitySet};
use crate::text::{same_text, texts};

verus! {

pub struct PlatformSpec {
    pub name: String,
    pub externs: Externs,
    pub provided_capabilities: CapabilitySet,
}

/// The functions that programs can import.
pub struct Externs {
    pub functions: Vec<ExternFunction>,
}

pub struct ExternFunction {
    pub path: Vec<String>,
    pub name: String,
    pub params: Vec<Type>,
    pub ret: Type,
    pub effectful: bool,
    pub capabilities: Vec<Capability>,
}

pub struct PlatformView {
    pub name: Seq<char>,
    pub externs: Seq<ExternView>,
    pub provided: Seq<Capability>,
}

pub struct ExternView {
    pub path: Seq<Seq<char>>,
    pub name: Seq<char>,
    pub params: Seq<TypeView>,
    pub ret: TypeView,
    pub effectful: bool,
    pub capabilities: Seq<Capability>,
}

impl View for ExternFunction {
    type V = ExternView;

    open spec fn view(&self) -> ExternView {
        ExternView {
            path: texts(self.path@),
            name: self.name@,
            params: type_views(self.params@),
            ret: self.ret@,
            effectful: self.effectful,
            capabilities: self.capabilities@,
        }
    }
}

impl View for Externs {
    type V = Seq<ExternView>;

    open spec fn view(&self) -> Seq<ExternView> {
        self.functions@.map_values(|function: ExternFunction| function@)
    }
}

impl View for PlatformSpec {
    type V = PlatformView;

    open spec fn view(&self) -> PlatformView {
        PlatformView {
            name: self.name@,
            externs: self.externs@,
            provided: self.provided_capabilities@,
        }
    }
}

/// The first function from `i` on that has the path and the name.
pub open spec fn import_target(
    externs: Seq<ExternView>,
    path: Seq<Seq<char>>,
    name: Seq<char>,
    i: int,
) -> Option<ExternView>
    decreases externs.len() - i,
{
    if i >= externs.len() {
        None
    } else if externs[i].path == path && externs[i].name == name {
        Some(externs[i])
    } else {
        import_target(externs, path, name, i + 1)
    }
}

/// Whether two lists of texts are the same.
pub fn same_texts(a: &Vec<String>, b: &Vec<String>) -> (same: bool)
    ensures
        same == (texts(a@) == texts(b@)),
{
    let ghost left = texts(a@);
    let ghost right = texts(b@);
    assert(left.len() == a.len() && right.len() == b.len());
    if a.len() != b.len() {
        return false;
    }
    let mut i: usize = 0;
    while i < a.len()
        invariant
            i <= a.len(),
            a.len() == b.len(),
            left == texts(a@),
            right == texts(b@),
            forall|k: int| 0 <= k < i ==> #[trigger] left[k] == right[k],
        decreases a.len() - i,
    {
        assert(left[i as int] == a@[i as int]@);
        assert(right[i as int] == b@[i as int]@);
        if !same_text(a[i].as_str(), b[i].as_str()) {
            return false;
        }
        i += 1;
    }
    assert(left =~= right);
    true
}

impl Externs {
    pub fn resolve_import(&self, path: &Vec<String>, name: &str) -> (found: Option<&ExternFunction>)
        ensures
            match found {
                Some(function) => import_target(self@, texts(path@), name@, 0) == Some(function@),
                None => import_target(self@, texts(path@), name@, 0) is None,
            },
    {
        let ghost externs = self@;
        let mut i: usize = 0;
        while i < self.functions.len()
            invariant
                i <= self.functions.len(),
                externs == self@,
                import_target(externs, texts(path@), name@, 0) == import_target(
                    externs,
                    texts(path@),
                    name@,
                    i as int,
                ),
            decreases self.functions.len() - i,
        {
            let function = &self.functions[i];
            assert(externs[i as int] == function@);
            if same_texts(&function.path, path) && same_text(function.name.as_str(), name) {
                return Some(function);
            }
            i += 1;
        }
        None
    }
}

} // verus!
