//! Module identifiers, qualified names and module headers.
use vstd::prelude::*;

verus! {

/// A module name with an optional object identifier that disambiguates it.
#[derive(Debug, Clone, PartialEq, Eq, Hash)]
pub struct ModuleIdentifier {
    pub name: String,
    pub oid: Option<Vec<u64>>,
}

impl View for ModuleIdentifier {
    type V = (Seq<char>, Option<Seq<u64>>);

    open spec fn view(&self) -> (Seq<char>, Option<Seq<u64>>) {
        (
            self.name@,
            match &self.oid {
                Some(o) => Some(o@),
                None => None,
            },
        )
    }
}

/// An element-by-element copy.
pub fn copy_vec<T: Copy>(v: &Vec<T>) -> (r: Vec<T>)
    ensures
        r@ == v@,
{
    let mut out: Vec<T> = Vec::new();
    let mut i: usize = 0;
    while i < v.len()
        invariant
            i <= v@.len(),
            out@ == v@.subrange(0, i as int),
        decreases v@.len() - i,
    {
        out.push(v[i]);
        i = i + 1;
    }
    assert(out@ =~= v@);
    out
}

fn same_arcs(a: &Vec<u64>, b: &Vec<u64>) -> (r: bool)
    ensures
        r == (a@ == b@),
{
    if a.len() != b.len() {
        return false;
    }
    let mut i: usize = 0;
    while i < a.len()
        invariant
            a@.len() == b@.len(),
            i <= a@.len(),
            forall|j: int| 0 <= j < i ==> a@[j] == b@[j],
        decreases a@.len() - i,
    {
        if a[i] != b[i] {
            return false;
        }
        i = i + 1;
    }
    assert(a@ =~= b@);
    true
}

impl ModuleIdentifier {
    pub fn with_name(name: String) -> (r: ModuleIdentifier)
        ensures
            r@ == (name@, None::<Seq<u64>>),
    {
        ModuleIdentifier { name, oid: None }
    }

    /// Whether both identify the same module.
    pub fn same(&self, other: &ModuleIdentifier) -> (r: bool)
        ensures
            r == (self@ == other@),
    {
        if self.name != other.name {
            return false;
        }
        match (&self.oid, &other.oid) {
            (None, None) => true,
            (Some(a), Some(b)) => same_arcs(a, b),
            _ => false,
        }
    }

    pub fn copy(&self) -> (r: ModuleIdentifier)
        ensures
            r@ == self@,
    {
        let oid = match &self.oid {
            Some(o) => Some(copy_vec(o)),
            None => None,
        };
        ModuleIdentifier { name: self.name.clone(), oid }
    }
}

/// A name declared in a module: the one form in which declarations refer to each other.
#[derive(Debug, Clone, PartialEq, Eq, Hash)]
pub struct QualifiedIdentifier {
    pub module: ModuleIdentifier,
    pub name: String,
}

impl View for QualifiedIdentifier {
    type V = ((Seq<char>, Option<Seq<u64>>), Seq<char>);

    open spec fn view(&self) -> ((Seq<char>, Option<Seq<u64>>), Seq<char>) {
        (self.module@, self.name@)
    }
}

impl QualifiedIdentifier {
    pub fn new(module: ModuleIdentifier, name: String) -> (r: QualifiedIdentifier)
        ensures
            r@ == (module@, name@),
    {
        QualifiedIdentifier { module, name }
    }

    pub fn same(&self, other: &QualifiedIdentifier) -> (r: bool)
        ensures
            r == (self@ == other@),
    {
        self.name == other.name && self.module.same(&other.module)
    }

    pub fn copy(&self) -> (r: QualifiedIdentifier)
        ensures
            r@ == self@,
    {
        QualifiedIdentifier { module: self.module.copy(), name: self.name.clone() }
    }
}

/// Names that a module takes from another module.
#[derive(Debug, Clone)]
pub struct Import {
    pub module: ModuleIdentifier,
    pub names: Vec<String>,
}

#[derive(Debug, Clone)]
pub struct ModuleHeader {
    pub ident: ModuleIdentifier,
    pub imports: Vec<Import>,
}

/// `imp` lists `name` among the names it takes.
pub open spec fn import_lists(imp: Import, name: Seq<char>) -> bool {
    exists|j: int| 0 <= j < imp.names@.len() && #[trigger] imp.names@[j]@ == name
}

/// `q` is what a name used in `header`'s module stands for: the same name, in the module
/// of the first import that lists it, or else in the module itself.
pub open spec fn symbol_resolves_to(header: ModuleHeader, name: Seq<char>, q: QualifiedIdentifier) -> bool {
    &&& q.name@ == name
    &&& (forall|i: int| 0 <= i < header.imports@.len() ==> !import_lists(#[trigger] header.imports@[i], name))
        ==> q.module@ == header.ident@
    &&& (exists|i: int| 0 <= i < header.imports@.len() && import_lists(#[trigger] header.imports@[i], name))
        ==> (exists|i: int|
        0 <= i < header.imports@.len() && import_lists(#[trigger] header.imports@[i], name)
            && q.module@ == header.imports@[i].module@ && (forall|k: int|
            0 <= k < i ==> !import_lists(#[trigger] header.imports@[k], name)))
}

impl ModuleHeader {
    /// Resolves a name used in this module to its qualified identifier, looking at the
    /// imports first.
    pub fn resolve_symbol(&self, name: &String) -> (r: QualifiedIdentifier)
        ensures
            symbol_resolves_to(*self, name@, r),
    {
        let mut i: usize = 0;
        while i < self.imports.len()
            invariant
                i <= self.imports@.len(),
                forall|k: int| 0 <= k < i ==> !import_lists(#[trigger] self.imports@[k], name@),
            decreases self.imports@.len() - i,
        {
            let import = &self.imports[i];
            let mut j: usize = 0;
            while j < import.names.len()
                invariant
                    i < self.imports@.len(),
                    *import == self.imports@[i as int],
                    j <= import.names@.len(),
                    forall|l: int| 0 <= l < j ==> import.names@[l]@ != name@,
                    forall|k: int| 0 <= k < i ==> !import_lists(#[trigger] self.imports@[k], name@),
                decreases import.names@.len() - j,
            {
                if import.names[j] == *name {
                    let r = QualifiedIdentifier::new(import.module.copy(), name.clone());
                    assert(import_lists(self.imports@[i as int], name@));
                    assert(r.module@ == self.imports@[i as int].module@);
                    return r;
                }
                j = j + 1;
            }
            assert(!import_lists(self.imports@[i as int], name@));
            i = i + 1;
        }
        QualifiedIdentifier::new(self.ident.copy(), name.clone())
    }
}

} // verus!
