//! The registry of modules, types and values, in the order of registration.
use vstd::prelude::*;
use indexmap::IndexMap;
use crate::error::AstElement;
use crate::module::{ModuleHeader, ModuleIdentifier, QualifiedIdentifier};
use crate::types::{Class, TaggedType};
use crate::values::Value;

verus! {

#[verifier::external_type_specification]
#[verifier::external_body]
#[verifier::reject_recursive_types(K)]
#[verifier::reject_recursive_types(V)]
#[verifier::reject_recursive_types(S)]
pub struct ExIndexMap<K, V, S>(IndexMap<K, V, S>);

#[derive(Debug)]
pub struct DeclaredValue {
    pub value: AstElement<Value>,
    pub ty: TaggedType,
}

#[derive(Debug)]
pub struct DeclaredType {
    pub parameters: Vec<String>,
    pub ty: TaggedType,
}

/// The entries of the module table, in insertion order.
pub uninterp spec fn module_entries(m: IndexMap<ModuleIdentifier, ModuleHeader>) -> Seq<(ModuleIdentifier, ModuleHeader)>;

/// The entries of the type table, in insertion order.
pub uninterp spec fn type_entries(m: IndexMap<QualifiedIdentifier, DeclaredType>) -> Seq<(QualifiedIdentifier, DeclaredType)>;

/// The entries of the value table, in insertion order.
pub uninterp spec fn value_entries(m: IndexMap<QualifiedIdentifier, DeclaredValue>) -> Seq<(QualifiedIdentifier, DeclaredValue)>;

/// Position of the entry whose key has view `k`, or -1.
pub open spec fn index_of<K: View, V>(e: Seq<(K, V)>, k: K::V) -> int {
    if exists|i: int| 0 <= i < e.len() && (#[trigger] e[i]).0@ == k {
        choose|i: int| 0 <= i < e.len() && (#[trigger] e[i]).0@ == k
    } else {
        -1
    }
}

/// No two entries have keys with the same view.
pub open spec fn keys_unique<K: View, V>(e: Seq<(K, V)>) -> bool {
    forall|i: int, j: int| 0 <= i < j < e.len() ==> (#[trigger] e[i]).0@ != (#[trigger] e[j]).0@
}

/// The entries after inserting `(k, v)`: a present key keeps its place and takes the new value.
pub open spec fn inserted<K: View, V>(e: Seq<(K, V)>, k: K, v: V) -> Seq<(K, V)> {
    let i = index_of(e, k@);
    if i >= 0 {
        e.update(i, (e[i].0, v))
    } else {
        e.push((k, v))
    }
}

/// Relies on `IndexMap::new`: an empty map.
#[verifier::external_body]
fn new_maps() -> (r: (
    IndexMap<ModuleIdentifier, ModuleHeader>,
    IndexMap<QualifiedIdentifier, DeclaredType>,
    IndexMap<QualifiedIdentifier, DeclaredValue>,
))
    ensures
        module_entries(r.0) == Seq::<(ModuleIdentifier, ModuleHeader)>::empty(),
        type_entries(r.1) == Seq::<(QualifiedIdentifier, DeclaredType)>::empty(),
        value_entries(r.2) == Seq::<(QualifiedIdentifier, DeclaredValue)>::empty(),
{
    (IndexMap::new(), IndexMap::new(), IndexMap::new())
}

/// Relies on `IndexMap::clear`: removes every entry.
#[verifier::external_body]
fn clear_maps(
    modules: &mut IndexMap<ModuleIdentifier, ModuleHeader>,
    types: &mut IndexMap<QualifiedIdentifier, DeclaredType>,
    values: &mut IndexMap<QualifiedIdentifier, DeclaredValue>,
)
    ensures
        module_entries(*final(modules)) == Seq::<(ModuleIdentifier, ModuleHeader)>::empty(),
        type_entries(*final(types)) == Seq::<(QualifiedIdentifier, DeclaredType)>::empty(),
        value_entries(*final(values)) == Seq::<(QualifiedIdentifier, DeclaredValue)>::empty(),
{
    modules.clear();
    types.clear();
    values.clear();
}

/// Relies on `IndexMap::insert`: an equivalent key keeps its place and takes the new
/// value; a new key goes last. Keys are equivalent when their fields are equal
/// (derived `Eq` and `Hash`).
#[verifier::external_body]
fn insert_module(m: &mut IndexMap<ModuleIdentifier, ModuleHeader>, k: ModuleIdentifier, v: ModuleHeader)
    ensures
        module_entries(*final(m)) == inserted(module_entries(*old(m)), k, v),
{
    m.insert(k, v);
}

/// Relies on `IndexMap::insert`, as `insert_module` does.
#[verifier::external_body]
fn insert_type(m: &mut IndexMap<QualifiedIdentifier, DeclaredType>, k: QualifiedIdentifier, v: DeclaredType)
    ensures
        type_entries(*final(m)) == inserted(type_entries(*old(m)), k, v),
{
    m.insert(k, v);
}

/// Relies on `IndexMap::insert`, as `insert_module` does.
#[verifier::external_body]
fn insert_value(m: &mut IndexMap<QualifiedIdentifier, DeclaredValue>, k: QualifiedIdentifier, v: DeclaredValue)
    ensures
        value_entries(*final(m)) == inserted(value_entries(*old(m)), k, v),
{
    m.insert(k, v);
}

/// Relies on `IndexMap::get`: the value under an equivalent key.
#[verifier::external_body]
fn get_module<'a>(m: &'a IndexMap<ModuleIdentifier, ModuleHeader>, k: &ModuleIdentifier) -> (r: Option<&'a ModuleHeader>)
    ensures
        index_of(module_entries(*m), k@) < 0 ==> r is None,
        index_of(module_entries(*m), k@) >= 0 ==> r == Some(&module_entries(*m)[index_of(module_entries(*m), k@)].1),
{
    m.get(k)
}

/// Relies on `IndexMap::get`: the value under an equivalent key.
#[verifier::external_body]
fn get_type<'a>(m: &'a IndexMap<QualifiedIdentifier, DeclaredType>, k: &QualifiedIdentifier) -> (r: Option<&'a DeclaredType>)
    ensures
        index_of(type_entries(*m), k@) < 0 ==> r is None,
        index_of(type_entries(*m), k@) >= 0 ==> r == Some(&type_entries(*m)[index_of(type_entries(*m), k@)].1),
{
    m.get(k)
}

/// Relies on `IndexMap::get`: the value under an equivalent key.
#[verifier::external_body]
fn get_value<'a>(m: &'a IndexMap<QualifiedIdentifier, DeclaredValue>, k: &QualifiedIdentifier) -> (r: Option<&'a DeclaredValue>)
    ensures
        index_of(value_entries(*m), k@) < 0 ==> r is None,
        index_of(value_entries(*m), k@) >= 0 ==> r == Some(&value_entries(*m)[index_of(value_entries(*m), k@)].1),
{
    m.get(k)
}

/// Relies on `IndexMap::get_mut`: the value under an equivalent key, to change in place.
#[verifier::external_body]
fn get_type_mut<'a>(m: &'a mut IndexMap<QualifiedIdentifier, DeclaredType>, k: &QualifiedIdentifier) -> (r: Option<&'a mut DeclaredType>)
    ensures
        index_of(type_entries(*old(m)), k@) < 0 ==> r is None && type_entries(*final(m)) == type_entries(*old(m)),
        index_of(type_entries(*old(m)), k@) >= 0 ==> r is Some,
        r matches Some(v) ==> ({
            let e = type_entries(*old(m));
            let i = index_of(e, k@);
            &&& *v == e[i].1
            &&& type_entries(*final(m)) == e.update(i, (e[i].0, *final(v)))
        }),
{
    m.get_mut(k)
}

/// Relies on `IndexMap::len`.
#[verifier::external_body]
fn module_count(m: &IndexMap<ModuleIdentifier, ModuleHeader>) -> (r: usize)
    ensures
        r == module_entries(*m).len(),
{
    m.len()
}

/// Relies on `IndexMap::len`.
#[verifier::external_body]
fn type_count(m: &IndexMap<QualifiedIdentifier, DeclaredType>) -> (r: usize)
    ensures
        r == type_entries(*m).len(),
{
    m.len()
}

/// Relies on `IndexMap::len`.
#[verifier::external_body]
fn value_count(m: &IndexMap<QualifiedIdentifier, DeclaredValue>) -> (r: usize)
    ensures
        r == value_entries(*m).len(),
{
    m.len()
}

/// Relies on `IndexMap::get_index`: the entry at a position of the order.
#[verifier::external_body]
fn module_at<'a>(m: &'a IndexMap<ModuleIdentifier, ModuleHeader>, i: usize) -> (r: (&'a ModuleIdentifier, &'a ModuleHeader))
    requires
        i < module_entries(*m).len(),
    ensures
        *r.0 == module_entries(*m)[i as int].0,
        *r.1 == module_entries(*m)[i as int].1,
{
    m.get_index(i).unwrap()
}

/// Relies on `IndexMap::get_index`: the entry at a position of the order.
#[verifier::external_body]
fn type_at<'a>(m: &'a IndexMap<QualifiedIdentifier, DeclaredType>, i: usize) -> (r: (&'a QualifiedIdentifier, &'a DeclaredType))
    requires
        i < type_entries(*m).len(),
    ensures
        *r.0 == type_entries(*m)[i as int].0,
        *r.1 == type_entries(*m)[i as int].1,
{
    m.get_index(i).unwrap()
}

/// Relies on `IndexMap::get_index`: the entry at a position of the order.
#[verifier::external_body]
fn value_at<'a>(m: &'a IndexMap<QualifiedIdentifier, DeclaredValue>, i: usize) -> (r: (&'a QualifiedIdentifier, &'a DeclaredValue))
    requires
        i < value_entries(*m).len(),
    ensures
        *r.0 == value_entries(*m)[i as int].0,
        *r.1 == value_entries(*m)[i as int].1,
{
    m.get_index(i).unwrap()
}

/// Whether two strings hold the same characters.
pub fn str_eq(a: &str, b: &str) -> (r: bool)
    ensures
        r == (a@ == b@),
{
    let n = a.unicode_len();
    if n != b.unicode_len() {
        return false;
    }
    let mut i: usize = 0;
    while i < n
        invariant
            n == a@.len(),
            a@.len() == b@.len(),
            i <= n,
            forall|j: int| 0 <= j < i ==> a@[j] == b@[j],
        decreases n - i,
    {
        if a.get_char(i) != b.get_char(i) {
            return false;
        }
        i = i + 1;
    }
    assert(a@ =~= b@);
    true
}

pub struct Context {
    modules: IndexMap<ModuleIdentifier, ModuleHeader>,
    types: IndexMap<QualifiedIdentifier, DeclaredType>,
    values: IndexMap<QualifiedIdentifier, DeclaredValue>,
}

impl Default for Context {
    fn default() -> (r: Context)
        ensures
            r.wf(),
            r.modules().len() == 0,
            r.types().len() == 0,
            r.values().len() == 0,
    {
        Context::new()
    }
}

impl Context {
    /// Registered modules, in order of registration.
    pub closed spec fn modules(&self) -> Seq<(ModuleIdentifier, ModuleHeader)> {
        module_entries(self.modules)
    }

    /// Registered types, in order of registration.
    pub closed spec fn types(&self) -> Seq<(QualifiedIdentifier, DeclaredType)> {
        type_entries(self.types)
    }

    /// Registered values, in order of registration.
    pub closed spec fn values(&self) -> Seq<(QualifiedIdentifier, DeclaredValue)> {
        value_entries(self.values)
    }

    /// Each table holds a key at most once.
    pub open spec fn wf(&self) -> bool {
        &&& keys_unique(self.modules())
        &&& keys_unique(self.types())
        &&& keys_unique(self.values())
    }

    pub fn new() -> (r: Context)
        ensures
            r.wf(),
            r.modules().len() == 0,
            r.types().len() == 0,
            r.values().len() == 0,
    {
        let (modules, types, values) = new_maps();
        Context { modules, types, values }
    }

    pub fn clear(&mut self)
        ensures
            final(self).wf(),
            final(self).modules().len() == 0,
            final(self).types().len() == 0,
            final(self).values().len() == 0,
    {
        clear_maps(&mut self.modules, &mut self.types, &mut self.values);
    }

    /// The number of registered types.
    pub fn type_count(&self) -> (r: usize)
        ensures
            r == self.types().len(),
    {
        type_count(&self.types)
    }

    pub fn list_modules(&self) -> (r: Vec<&ModuleHeader>)
        ensures
            r@.len() == self.modules().len(),
            forall|i: int| 0 <= i < r@.len() ==> *r@[i] == self.modules()[i].1,
    {
        let n = module_count(&self.modules);
        let mut out: Vec<&ModuleHeader> = Vec::new();
        let mut i: usize = 0;
        while i < n
            invariant
                n == self.modules().len(),
                i <= n,
                out@.len() == i,
                forall|j: int| 0 <= j < i ==> *out@[j] == self.modules()[j].1,
            decreases n - i,
        {
            let (_, header) = module_at(&self.modules, i);
            out.push(header);
            i = i + 1;
        }
        out
    }

    pub fn list_types(&self) -> (r: Vec<(QualifiedIdentifier, &DeclaredType)>)
        ensures
            r@.len() == self.types().len(),
            forall|i: int|
                0 <= i < r@.len() ==> r@[i].0@ == self.types()[i].0@ && *r@[i].1 == self.types()[i].1,
    {
        let n = type_count(&self.types);
        let mut out: Vec<(QualifiedIdentifier, &DeclaredType)> = Vec::new();
        let mut i: usize = 0;
        while i < n
            invariant
                n == self.types().len(),
                i <= n,
                out@.len() == i,
                forall|j: int|
                    0 <= j < i ==> out@[j].0@ == self.types()[j].0@ && *out@[j].1 == self.types()[j].1,
            decreases n - i,
        {
            let (ident, decl) = type_at(&self.types, i);
            out.push((ident.copy(), decl));
            i = i + 1;
        }
        out
    }

    pub fn list_values(&self) -> (r: Vec<(QualifiedIdentifier, &DeclaredValue)>)
        ensures
            r@.len() == self.values().len(),
            forall|i: int|
                0 <= i < r@.len() ==> r@[i].0@ == self.values()[i].0@ && *r@[i].1 == self.values()[i].1,
    {
        let n = value_count(&self.values);
        let mut out: Vec<(QualifiedIdentifier, &DeclaredValue)> = Vec::new();
        let mut i: usize = 0;
        while i < n
            invariant
                n == self.values().len(),
                i <= n,
                out@.len() == i,
                forall|j: int|
                    0 <= j < i ==> out@[j].0@ == self.values()[j].0@ && *out@[j].1 == self.values()[j].1,
            decreases n - i,
        {
            let (ident, val) = value_at(&self.values, i);
            out.push((ident.copy(), val));
            i = i + 1;
        }
        out
    }

    pub fn register_module(&mut self, module: ModuleHeader)
        requires
            old(self).wf(),
        ensures
            final(self).wf(),
            exists|k: ModuleIdentifier|
                k@ == module.ident@ && final(self).modules() == inserted(old(self).modules(), k, module),
            final(self).types() == old(self).types(),
            final(self).values() == old(self).values(),
    {
        let ident = module.ident.copy();
        proof {
            lemma_inserted_unique(old(self).modules(), ident, module);
        }
        let ghost m = module;
        insert_module(&mut self.modules, ident, module);
        assert(ident@ == m.ident@);
    }

    /// Registers a new type; a name may be declared only once.
    pub fn register_type(&mut self, ident: QualifiedIdentifier, ty: DeclaredType)
        requires
            old(self).wf(),
            index_of(old(self).types(), ident@) < 0,
        ensures
            final(self).wf(),
            final(self).types() == old(self).types().push((ident, ty)),
            final(self).modules() == old(self).modules(),
            final(self).values() == old(self).values(),
    {
        proof {
            lemma_inserted_unique(old(self).types(), ident, ty);
        }
        insert_type(&mut self.types, ident, ty);
    }

    /// Registers a new value; a name may be declared only once.
    pub fn register_value(&mut self, ident: QualifiedIdentifier, val: DeclaredValue)
        requires
            old(self).wf(),
            index_of(old(self).values(), ident@) < 0,
        ensures
            final(self).wf(),
            final(self).values() == old(self).values().push((ident, val)),
            final(self).modules() == old(self).modules(),
            final(self).types() == old(self).types(),
    {
        proof {
            lemma_inserted_unique(old(self).values(), ident, val);
        }
        insert_value(&mut self.values, ident, val);
    }

    /// The first registered module with the given name.
    pub fn lookup_module_by_name<'a>(&'a self, name: &str) -> (r: Option<&'a ModuleHeader>)
        ensures
            r is None <==> forall|i: int| 0 <= i < self.modules().len() ==> (#[trigger] self.modules()[i]).1.ident.name@ != name@,
            r matches Some(h) ==> exists|i: int|
                0 <= i < self.modules().len() && *h == (#[trigger] self.modules()[i]).1 && h.ident.name@ == name@
                    && forall|j: int| 0 <= j < i ==> (#[trigger] self.modules()[j]).1.ident.name@ != name@,
    {
        let n = module_count(&self.modules);
        let mut i: usize = 0;
        while i < n
            invariant
                n == self.modules().len(),
                i <= n,
                forall|j: int| 0 <= j < i ==> (#[trigger] self.modules()[j]).1.ident.name@ != name@,
            decreases n - i,
        {
            let (_, header) = module_at(&self.modules, i);
            if str_eq(header.ident.name.as_str(), name) {
                assert(*header == self.modules()[i as int].1);
                return Some(header);
            }
            i = i + 1;
        }
        None
    }

    pub fn lookup_module<'a>(&'a self, ident: &ModuleIdentifier) -> (r: Option<&'a ModuleHeader>)
        ensures
            index_of(self.modules(), ident@) < 0 ==> r is None,
            index_of(self.modules(), ident@) >= 0 ==> r == Some(&self.modules()[index_of(self.modules(), ident@)].1),
    {
        get_module(&self.modules, ident)
    }

    pub fn lookup_type<'a>(&'a self, ident: &QualifiedIdentifier) -> (r: Option<&'a DeclaredType>)
        ensures
            index_of(self.types(), ident@) < 0 ==> r is None,
            index_of(self.types(), ident@) >= 0 ==> r == Some(&self.types()[index_of(self.types(), ident@)].1),
    {
        get_type(&self.types, ident)
    }

    /// The registered type under `ident`, to change in place.
    pub fn lookup_type_mut<'a>(&'a mut self, ident: &QualifiedIdentifier) -> (r: Option<&'a mut DeclaredType>)
        ensures
            index_of(old(self).types(), ident@) < 0 ==> r is None && final(self).types() == old(self).types(),
            index_of(old(self).types(), ident@) >= 0 ==> r is Some,
            r matches Some(v) ==> ({
                let e = old(self).types();
                let i = index_of(e, ident@);
                &&& *v == e[i].1
                &&& final(self).types() == e.update(i, (e[i].0, *final(v)))
            }),
            final(self).modules() == old(self).modules(),
            final(self).values() == old(self).values(),
    {
        get_type_mut(&mut self.types, ident)
    }

    pub fn lookup_value<'a>(&'a self, ident: &QualifiedIdentifier) -> (r: Option<&'a DeclaredValue>)
        ensures
            index_of(self.values(), ident@) < 0 ==> r is None,
            index_of(self.values(), ident@) >= 0 ==> r == Some(&self.values()[index_of(self.values(), ident@)].1),
    {
        get_value(&self.values, ident)
    }

    /// The first registered type whose tag has the given class and number.
    pub fn lookup_type_by_tag(&self, class: Class, num: u16) -> (r: Option<&DeclaredType>)
        ensures
            r is None <==> forall|i: int| 0 <= i < self.types().len() ==> !has_tag(#[trigger] self.types()[i].1, class, num),
            r matches Some(d) ==> exists|i: int|
                0 <= i < self.types().len() && *d == (#[trigger] self.types()[i]).1 && has_tag(*d, class, num)
                    && forall|j: int| 0 <= j < i ==> !has_tag(#[trigger] self.types()[j].1, class, num),
    {
        let n = type_count(&self.types);
        let mut i: usize = 0;
        while i < n
            invariant
                n == self.types().len(),
                i <= n,
                forall|j: int| 0 <= j < i ==> !has_tag(#[trigger] self.types()[j].1, class, num),
            decreases n - i,
        {
            let (_, decl) = type_at(&self.types, i);
            let found = match &decl.ty.tag {
                Some(tag) => tag.class == class && tag.num == num,
                None => false,
            };
            if found {
                assert(*decl == self.types()[i as int].1);
                return Some(decl);
            }
            i = i + 1;
        }
        None
    }
}

/// The declared type carries a tag of the given class and number.
pub open spec fn has_tag(d: DeclaredType, class: Class, num: u16) -> bool {
    match d.ty.tag {
        Some(tag) => tag.class == class && tag.num == num,
        None => false,
    }
}

proof fn lemma_inserted_unique<K: View, V>(e: Seq<(K, V)>, k: K, v: V)
    requires
        keys_unique(e),
    ensures
        keys_unique(inserted(e, k, v)),
{
    let r = inserted(e, k, v);
    let i = index_of(e, k@);
    if i < 0 {
        assert forall|a: int, b: int| 0 <= a < b < r.len() implies (#[trigger] r[a]).0@ != (#[trigger] r[b]).0@ by {
            if b == e.len() {
                assert(!(e[a].0@ == k@));
            }
        }
    }
}

} // verus!
