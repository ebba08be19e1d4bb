//! Finding a method by the name of its class, its own name and its
//! descriptor.

use vstd::prelude::*;
use crate::linker::{RuntimeClass, RuntimeClassView, RuntimeMethod, RuntimeMethodView};
use crate::model::agrees_in_view;
use crate::registry::ClassRegistry;
use crate::text::text_eq;

verus! {

/// The name of the method that a program starts in.
pub open spec fn spec_main_name() -> Seq<char> {
    "main"@
}

/// The descriptor of the method that a program starts in: it takes an array
/// of strings and returns nothing.
pub open spec fn spec_main_descriptor() -> Seq<char> {
    "([Ljava/lang/String;)V"@
}

/// Why a method could not be found.
#[derive(Debug, PartialEq, Eq)]
pub enum LookupError {
    /// The table holds no class of this name.
    UnknownClass { name: String },
    /// The class has no method of this name and descriptor.
    UnknownMethod { class: String, name: String, descriptor: String },
}

/// The mathematical value of a [`LookupError`].
pub enum LookupErrorView {
    UnknownClass { name: Seq<char> },
    UnknownMethod { class: Seq<char>, name: Seq<char>, descriptor: Seq<char> },
}

impl View for LookupError {
    type V = LookupErrorView;

    open spec fn view(&self) -> LookupErrorView {
        match self {
            LookupError::UnknownClass { name } => LookupErrorView::UnknownClass { name: name@ },
            LookupError::UnknownMethod { class, name, descriptor } => {
                LookupErrorView::UnknownMethod {
                    class: class@,
                    name: name@,
                    descriptor: descriptor@,
                }
            },
        }
    }
}

/// Whether `method` has exactly this name and this descriptor.
pub open spec fn is_method(
    method: RuntimeMethodView,
    name: Seq<char>,
    descriptor: Seq<char>,
) -> bool {
    method.name == name && method.descriptor == descriptor
}

/// The position of the first of `methods` at or behind `from` that has the
/// name `name` and the descriptor `descriptor`, or `None` where none has.
pub open spec fn spec_method_position(
    methods: Seq<RuntimeMethodView>,
    name: Seq<char>,
    descriptor: Seq<char>,
    from: int,
) -> Option<int>
    decreases methods.len() - from,
{
    if from < 0 || from >= methods.len() {
        None
    } else if is_method(methods[from], name, descriptor) {
        Some(from)
    } else {
        spec_method_position(methods, name, descriptor, from + 1)
    }
}

/// Finding the method `name` with the descriptor `descriptor` in the class
/// that `classes` holds under `class_name`.
pub open spec fn spec_find_method(
    classes: Map<Seq<char>, RuntimeClassView>,
    class_name: Seq<char>,
    name: Seq<char>,
    descriptor: Seq<char>,
) -> Result<RuntimeMethodView, LookupErrorView> {
    if !classes.contains_key(class_name) {
        Err(LookupErrorView::UnknownClass { name: class_name })
    } else {
        match spec_method_position(classes[class_name].methods, name, descriptor, 0) {
            None => Err(LookupErrorView::UnknownMethod { class: class_name, name, descriptor }),
            Some(i) => Ok(classes[class_name].methods[i]),
        }
    }
}

/// What the search for a method finds is the first method of that name and
/// that descriptor: it matches in both, and no method before it does.  The
/// search finds nothing only where no method matches in both.
pub proof fn lemma_method_position(
    methods: Seq<RuntimeMethodView>,
    name: Seq<char>,
    descriptor: Seq<char>,
    from: int,
)
    requires
        0 <= from,
    ensures
        match spec_method_position(methods, name, descriptor, from) {
            Some(i) => from <= i < methods.len() && is_method(methods[i], name, descriptor)
                && forall|j: int| from <= j < i ==> !is_method(methods[j], name, descriptor),
            None => forall|j: int|
                from <= j < methods.len() ==> !is_method(methods[j], name, descriptor),
        },
    decreases methods.len() - from,
{
    if from < methods.len() && !is_method(methods[from], name, descriptor) {
        lemma_method_position(methods, name, descriptor, from + 1);
    }
}

/// The first method of `class` that has the name `name` and the descriptor
/// `descriptor`.
pub fn method_of<'a>(class: &'a RuntimeClass, name: &str, descriptor: &str) -> (res: Option<
    &'a RuntimeMethod,
>)
    ensures
        match res {
            Some(method) => spec_method_position(class@.methods, name@, descriptor@, 0)
                matches Some(i) && method@ == class@.methods[i],
            None => spec_method_position(class@.methods, name@, descriptor@, 0) is None,
        },
{
    let mut i: usize = 0;
    while i < class.methods.len()
        invariant
            i <= class.methods@.len(),
            spec_method_position(class@.methods, name@, descriptor@, 0) == spec_method_position(
                class@.methods,
                name@,
                descriptor@,
                i as int,
            ),
        decreases class.methods@.len() - i,
    {
        let method = &class.methods[i];
        if text_eq(method.name.as_str(), name) && text_eq(method.descriptor.as_str(), descriptor) {
            return Some(method);
        }
        i = i + 1;
    }
    None
}

/// Finds the method `name` with the descriptor `descriptor` in the class
/// that `classes` holds under `class_name`.
///
/// Name and descriptor must both match: of several methods of one name the
/// descriptor picks one.  Where several methods match, the first is found.
pub fn find_method<'a>(
    classes: &'a ClassRegistry,
    class_name: &str,
    name: &str,
    descriptor: &str,
) -> (res: Result<&'a RuntimeMethod, LookupError>)
    ensures
        agrees_in_view(res, spec_find_method(classes@, class_name@, name@, descriptor@)),
{
    let class = match classes.get(class_name) {
        Some(class) => class,
        None => {
            return Err(LookupError::UnknownClass { name: class_name.to_owned() });
        },
    };
    match method_of(class, name, descriptor) {
        Some(method) => Ok(method),
        None => Err(
            LookupError::UnknownMethod {
                class: class_name.to_owned(),
                name: name.to_owned(),
                descriptor: descriptor.to_owned(),
            },
        ),
    }
}

/// Finds the method that a program starts in: the method `main` of the
/// class `class_name` that takes an array of strings and returns nothing.
pub fn find_main_method<'a>(classes: &'a ClassRegistry, class_name: &str) -> (res: Result<
    &'a RuntimeMethod,
    LookupError,
>)
    ensures
        agrees_in_view(
            res,
            spec_find_method(classes@, class_name@, spec_main_name(), spec_main_descriptor()),
        ),
{
    find_method(classes, class_name, "main", "([Ljava/lang/String;)V")
}

} // verus!
