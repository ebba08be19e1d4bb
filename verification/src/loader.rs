//! Loading: from the bytes of a class file to a class in the table.

use std::rc::Rc;
use vstd::prelude::*;
use crate::class_file::{spec_class_file, ClassFile};
use crate::decode::DecodeError;
use crate::linker::{insert_class, spec_link, LinkError, RuntimeClass, RuntimeClassView};
use crate::model::agrees;
use crate::reader::ByteReader;
use crate::registry::ClassRegistry;
use crate::text::{ends_with, spec_dotted, spec_ends_with};

verus! {

/// Why the bytes of a class file did not make a class.
#[derive(Debug, Clone, Copy, PartialEq, Eq, Structural)]
pub enum LoadError {
    /// The bytes are no class file.
    Decode(DecodeError),
    /// The class file does not link.
    Link(LinkError),
}

/// The suffix of the names under which an archive holds class files.
pub open spec fn spec_class_suffix() -> Seq<char> {
    ".class"@
}

/// Whether an archive entry of this name holds a class file.
pub fn is_class_entry(name: &str) -> (res: bool)
    ensures
        res == spec_ends_with(name@, spec_class_suffix()),
{
    ends_with(name, ".class")
}

/// Decoding `bytes` as a class file and linking what comes of it.  Bytes
/// behind the class file are of no account.
pub open spec fn spec_load(bytes: Seq<u8>) -> Result<RuntimeClassView, LoadError> {
    match spec_class_file(bytes, 0) {
        Err(e) => Err(LoadError::Decode(e)),
        Ok((class_file, _)) => match spec_link(class_file) {
            Err(e) => Err(LoadError::Link(e)),
            Ok(class) => Ok(class),
        },
    }
}

/// Decodes `bytes` as a class file, links it and puts the class into
/// `classes` under its dotted name, in place of any class that was there
/// under that name.
///
/// Where the bytes do not decode or the class file does not link, the table
/// is left as it was.
pub fn load_class(classes: &mut ClassRegistry, bytes: &[u8]) -> (res: Result<
    Rc<RuntimeClass>,
    LoadError,
>)
    ensures
        agrees(res, spec_load(bytes@)),
        match res {
            Ok(class) => final(classes)@ == old(classes)@.insert(
                spec_dotted(class@.binary_name),
                class@,
            ),
            Err(_) => final(classes)@ == old(classes)@,
        },
{
    let mut reader = ByteReader::new(bytes);
    let class_file = match ClassFile::read_from(&mut reader) {
        Ok(class_file) => class_file,
        Err(e) => {
            return Err(LoadError::Decode(e));
        },
    };
    match insert_class(classes, class_file) {
        Ok(class) => Ok(class),
        Err(e) => Err(LoadError::Link(e)),
    }
}

} // verus!
