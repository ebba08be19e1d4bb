//! Linking: from a decoded class file to a class that can run.
//!
//! A linked class holds no index into a constant pool any more: its name, the
//! name of its super class and the names and descriptors of its methods are
//! text, and the body of each method is decoded.

use std::rc::Rc;
use vstd::prelude::*;
use crate::class_file::{Attribute, AttributeView, ClassFile, ClassFileView, Method, MethodView};
use crate::code::{spec_code, spec_empty_code, Code, CodeView};
use crate::constant_pool::{pool_class, pool_utf8, ConstPool, ConstView, PoolError};
use crate::decode::DecodeError;
use crate::model::{agrees, lemma_views_push, views};
use crate::reader::ByteReader;
use crate::registry::{share, ClassRegistry};
use crate::text::{dotted, spec_dotted, text_eq};

verus! {

/// Why a class file could not be linked.
#[derive(Debug, Clone, Copy, PartialEq, Eq, Structural)]
pub enum LinkError {
    /// An index did not lead to a constant of the kind that was needed.
    Pool(PoolError),
    /// The `Code` attribute of a method could not be decoded.
    Code(DecodeError),
}

/// A method that can run: its name and descriptor as text, its body decoded.
#[derive(Debug)]
pub struct RuntimeMethod {
    pub name: String,
    pub descriptor: String,
    pub code: Code,
}

/// The mathematical value of a [`RuntimeMethod`].
pub struct RuntimeMethodView {
    pub name: Seq<char>,
    pub descriptor: Seq<char>,
    pub code: CodeView,
}

impl View for RuntimeMethod {
    type V = RuntimeMethodView;

    open spec fn view(&self) -> RuntimeMethodView {
        RuntimeMethodView { name: self.name@, descriptor: self.descriptor@, code: self.code@ }
    }
}

/// A linked class.  It refers to its super class by name only.
#[derive(Debug)]
pub struct RuntimeClass {
    /// The name of the class, its packages parted by `/`.
    pub binary_name: String,
    /// The name of the super class, or `None` for a class that has none.
    pub super_class: Option<String>,
    pub methods: Vec<RuntimeMethod>,
}

/// The mathematical value of a [`RuntimeClass`].
pub struct RuntimeClassView {
    pub binary_name: Seq<char>,
    pub super_class: Option<Seq<char>>,
    pub methods: Seq<RuntimeMethodView>,
}

impl View for RuntimeClass {
    type V = RuntimeClassView;

    open spec fn view(&self) -> RuntimeClassView {
        RuntimeClassView {
            binary_name: self.binary_name@,
            super_class: match self.super_class {
                Some(name) => Some(name@),
                None => None,
            },
            methods: views(self.methods@),
        }
    }
}

/// The name of the class that the class constant of index `idx` refers to:
/// two hops through the pool, each to a constant of the right kind.
pub open spec fn spec_class_name(pool: Seq<ConstView>, idx: u16) -> Result<Seq<char>, PoolError> {
    match pool_class(pool, idx) {
        Err(e) => Err(e),
        Ok(name_idx) => pool_utf8(pool, name_idx),
    }
}

/// The name of the super class: none where the index is 0, which refers to
/// no constant, and else the name of the class of that index.
pub open spec fn spec_super_name(pool: Seq<ConstView>, idx: u16) -> Result<
    Option<Seq<char>>,
    PoolError,
> {
    if idx == 0 {
        Ok(None)
    } else {
        match spec_class_name(pool, idx) {
            Err(e) => Err(e),
            Ok(name) => Ok(Some(name)),
        }
    }
}

/// Whether the name of `attribute` resolves to the text `Code`.  An
/// attribute whose name does not resolve is not one.
pub open spec fn is_code_attribute(pool: Seq<ConstView>, attribute: AttributeView) -> bool {
    pool_utf8(pool, attribute.name_idx) matches Ok(name) && name == "Code"@
}

/// The position of the first `Code` attribute among `attributes` at or
/// behind `from`, or `None` where there is none.
pub open spec fn spec_code_attribute(
    pool: Seq<ConstView>,
    attributes: Seq<AttributeView>,
    from: int,
) -> Option<int>
    decreases attributes.len() - from,
{
    if from < 0 || from >= attributes.len() {
        None
    } else if is_code_attribute(pool, attributes[from]) {
        Some(from)
    } else {
        spec_code_attribute(pool, attributes, from + 1)
    }
}

/// What the search for a `Code` attribute finds is the first attribute whose
/// name resolves to `Code`; it finds nothing only where there is none.
pub proof fn lemma_code_attribute(pool: Seq<ConstView>, attributes: Seq<AttributeView>, from: int)
    requires
        0 <= from,
    ensures
        match spec_code_attribute(pool, attributes, from) {
            Some(i) => from <= i < attributes.len() && is_code_attribute(pool, attributes[i])
                && forall|j: int| from <= j < i ==> !is_code_attribute(pool, attributes[j]),
            None => forall|j: int|
                from <= j < attributes.len() ==> !is_code_attribute(pool, attributes[j]),
        },
    decreases attributes.len() - from,
{
    if from < attributes.len() && !is_code_attribute(pool, attributes[from]) {
        lemma_code_attribute(pool, attributes, from + 1);
    }
}

/// The body of a method with the given attributes: what its first `Code`
/// attribute decodes to, and an empty body where it has none.
pub open spec fn spec_method_code(pool: Seq<ConstView>, attributes: Seq<AttributeView>) -> Result<
    CodeView,
    DecodeError,
> {
    match spec_code_attribute(pool, attributes, 0) {
        None => Ok(spec_empty_code()),
        Some(i) => match spec_code(attributes[i].info, 0) {
            Err(e) => Err(e),
            Ok((code, _)) => Ok(code),
        },
    }
}

/// Linking one method: its name, then its descriptor, then its body.
pub open spec fn spec_link_method(pool: Seq<ConstView>, method: MethodView) -> Result<
    RuntimeMethodView,
    LinkError,
> {
    match pool_utf8(pool, method.name_idx) {
        Err(e) => Err(LinkError::Pool(e)),
        Ok(name) => match pool_utf8(pool, method.descriptor_idx) {
            Err(e) => Err(LinkError::Pool(e)),
            Ok(descriptor) => match spec_method_code(pool, method.attributes) {
                Err(e) => Err(LinkError::Code(e)),
                Ok(code) => Ok(RuntimeMethodView { name, descriptor, code }),
            },
        },
    }
}

/// Linking the first `n` of `methods`, in their order; the first method that
/// fails decides the error.
pub open spec fn spec_link_methods(
    pool: Seq<ConstView>,
    methods: Seq<MethodView>,
    n: nat,
) -> Result<Seq<RuntimeMethodView>, LinkError>
    decreases n,
{
    if n == 0 {
        Ok(Seq::empty())
    } else {
        match spec_link_methods(pool, methods, (n - 1) as nat) {
            Err(e) => Err(e),
            Ok(linked) => match spec_link_method(pool, methods[n - 1]) {
                Err(e) => Err(e),
                Ok(m) => Ok(linked.push(m)),
            },
        }
    }
}

/// Linking a class file: the name of the class, the name of its super class,
/// then every method.
pub open spec fn spec_link(class_file: ClassFileView) -> Result<RuntimeClassView, LinkError> {
    match spec_class_name(class_file.const_pool, class_file.this_class) {
        Err(e) => Err(LinkError::Pool(e)),
        Ok(binary_name) => match spec_super_name(class_file.const_pool, class_file.super_class) {
            Err(e) => Err(LinkError::Pool(e)),
            Ok(super_class) => match spec_link_methods(
                class_file.const_pool,
                class_file.methods,
                class_file.methods.len(),
            ) {
                Err(e) => Err(e),
                Ok(methods) => Ok(RuntimeClassView { binary_name, super_class, methods }),
            },
        },
    }
}

/// Once the first `k` methods fail to link, so do the first `n >= k`, and in
/// the same way.
pub proof fn lemma_link_error_persists(
    pool: Seq<ConstView>,
    methods: Seq<MethodView>,
    k: nat,
    n: nat,
)
    requires
        k <= n,
        spec_link_methods(pool, methods, k) is Err,
    ensures
        spec_link_methods(pool, methods, n) == spec_link_methods(pool, methods, k),
    decreases n,
{
    if k < n {
        lemma_link_error_persists(pool, methods, k, (n - 1) as nat);
    }
}

/// Methods are linked each by itself and keep their order: where the first
/// `n` methods link, there are `n` linked methods and each is what its
/// method links to.
pub proof fn lemma_linked_methods(pool: Seq<ConstView>, methods: Seq<MethodView>, n: nat)
    requires
        spec_link_methods(pool, methods, n) is Ok,
    ensures
        spec_link_methods(pool, methods, n)->Ok_0.len() == n,
        forall|i: int|
            0 <= i < n ==> #[trigger] spec_link_method(pool, methods[i]) == Ok::<
                RuntimeMethodView,
                LinkError,
            >(spec_link_methods(pool, methods, n)->Ok_0[i]),
    decreases n,
{
    if n > 0 {
        lemma_linked_methods(pool, methods, (n - 1) as nat);
    }
}

/// Where the first `n` methods do not link, the error is that of the first
/// method that does not.
pub proof fn lemma_first_link_error(
    pool: Seq<ConstView>,
    methods: Seq<MethodView>,
    n: nat,
) -> (i: int)
    requires
        spec_link_methods(pool, methods, n) is Err,
    ensures
        0 <= i < n,
        spec_link_methods(pool, methods, i as nat) is Ok,
        spec_link_method(pool, methods[i]) is Err,
        spec_link_methods(pool, methods, n)->Err_0 == spec_link_method(pool, methods[i])->Err_0,
    decreases n,
{
    if spec_link_methods(pool, methods, (n - 1) as nat) is Err {
        lemma_first_link_error(pool, methods, (n - 1) as nat)
    } else {
        n - 1
    }
}

/// The text of the `Utf8` constant of index `idx`, as a string of its own.
fn utf8_text(pool: &ConstPool, idx: u16) -> (res: Result<String, PoolError>)
    ensures
        agrees(res, pool_utf8(pool@, idx)),
{
    let utf8 = pool.get_utf8(idx)?;
    Ok(utf8.bytes.clone())
}

/// The name of the class that the class constant of index `idx` refers to.
pub fn class_name(pool: &ConstPool, idx: u16) -> (res: Result<String, PoolError>)
    ensures
        agrees(res, spec_class_name(pool@, idx)),
{
    let class = pool.get_class(idx)?;
    utf8_text(pool, class.name_idx)
}

/// Whether the name of `attribute` resolves to the text `Code`.
fn names_code(pool: &ConstPool, attribute: &Attribute) -> (res: bool)
    ensures
        res == is_code_attribute(pool@, attribute@),
{
    match pool.get_utf8(attribute.name_idx) {
        Ok(name) => text_eq(name.bytes.as_str(), "Code"),
        Err(_) => false,
    }
}

/// The first `Code` attribute among `attributes`, if there is one.
fn find_code_attribute<'a>(pool: &ConstPool, attributes: &'a Vec<Attribute>) -> (res: Option<
    &'a Attribute,
>)
    ensures
        match res {
            Some(attribute) => spec_code_attribute(pool@, views(attributes@), 0) matches Some(i)
                && attribute@ == views(attributes@)[i],
            None => spec_code_attribute(pool@, views(attributes@), 0) is None,
        },
{
    let mut i: usize = 0;
    while i < attributes.len()
        invariant
            i <= attributes@.len(),
            spec_code_attribute(pool@, views(attributes@), 0) == spec_code_attribute(
                pool@,
                views(attributes@),
                i as int,
            ),
        decreases attributes@.len() - i,
    {
        if names_code(pool, &attributes[i]) {
            return Some(&attributes[i]);
        }
        i = i + 1;
    }
    None
}

/// Links one method: resolves its name and its descriptor, and decodes its
/// first `Code` attribute.  A method without one gets an empty body.
pub fn link_method(pool: &ConstPool, method: &Method) -> (res: Result<RuntimeMethod, LinkError>)
    ensures
        agrees(res, spec_link_method(pool@, method@)),
{
    let name = match utf8_text(pool, method.name_idx) {
        Ok(name) => name,
        Err(e) => {
            return Err(LinkError::Pool(e));
        },
    };
    let descriptor = match utf8_text(pool, method.descriptor_idx) {
        Ok(descriptor) => descriptor,
        Err(e) => {
            return Err(LinkError::Pool(e));
        },
    };
    let code = match find_code_attribute(pool, &method.attributes) {
        Some(attribute) => {
            let mut reader = ByteReader::new(attribute.info.as_slice());
            match Code::read_from(&mut reader) {
                Ok(code) => code,
                Err(e) => {
                    return Err(LinkError::Code(e));
                },
            }
        },
        None => Code::empty(),
    };
    Ok(RuntimeMethod { name, descriptor, code })
}

/// Links a class file: resolves the name of the class and of its super class
/// and links every method, in the order of the class file.
///
/// A super-class index of 0 stands for a class without a super class.  The
/// first reference that does not resolve, or the first body that does not
/// decode, ends the linking with its error.
pub fn link_class(class_file: &ClassFile) -> (res: Result<RuntimeClass, LinkError>)
    ensures
        agrees(res, spec_link(class_file@)),
{
    let pool = &class_file.const_pool;
    let binary_name = match class_name(pool, class_file.this_class) {
        Ok(name) => name,
        Err(e) => {
            return Err(LinkError::Pool(e));
        },
    };
    let super_class = if class_file.super_class == 0 {
        None
    } else {
        match class_name(pool, class_file.super_class) {
            Ok(name) => Some(name),
            Err(e) => {
                return Err(LinkError::Pool(e));
            },
        }
    };
    let count: usize = class_file.methods.len();
    let mut methods: Vec<RuntimeMethod> = Vec::with_capacity(count);
    let mut i: usize = 0;
    assert(views(methods@) =~= Seq::<RuntimeMethodView>::empty());
    while i < count
        invariant
            i <= count,
            count == class_file.methods@.len(),
            pool == &class_file.const_pool,
            spec_class_name(pool@, class_file.this_class) is Ok,
            spec_super_name(pool@, class_file.super_class) is Ok,
            spec_link_methods(pool@, views(class_file.methods@), i as nat) == Ok::<
                Seq<RuntimeMethodView>,
                LinkError,
            >(views(methods@)),
        decreases count - i,
    {
        match link_method(pool, &class_file.methods[i]) {
            Ok(method) => {
                proof {
                    lemma_views_push(methods@, method);
                }
                methods.push(method);
            },
            Err(e) => {
                proof {
                    lemma_link_error_persists(
                        pool@,
                        views(class_file.methods@),
                        (i + 1) as nat,
                        count as nat,
                    );
                }
                return Err(e);
            },
        }
        i = i + 1;
    }
    Ok(RuntimeClass { binary_name, super_class, methods })
}

/// Links `class_file` and puts the class into `classes` under its dotted
/// name, in place of any class that was there under that name.
///
/// Where linking fails the table is left as it was.
pub fn insert_class(classes: &mut ClassRegistry, class_file: ClassFile) -> (res: Result<
    Rc<RuntimeClass>,
    LinkError,
>)
    ensures
        agrees(res, spec_link(class_file@)),
        match res {
            Ok(class) => final(classes)@ == old(classes)@.insert(
                spec_dotted(class@.binary_name),
                class@,
            ),
            Err(_) => final(classes)@ == old(classes)@,
        },
{
    let class = Rc::new(link_class(&class_file)?);
    let name = dotted(class.binary_name.as_str());
    classes.insert(name, share(&class));
    Ok(class)
}

} // verus!
