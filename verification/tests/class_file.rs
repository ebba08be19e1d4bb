use robusta::class_file::{read_attributes, read_members, Attribute, ClassFile, Method};
use robusta::constant_pool::{Class, Const, Utf8};
use robusta::decode::{DecodeError, Field};
use robusta::reader::{ByteReader, ShortRead};

fn utf8(text: &str) -> Vec<u8> {
    let mut bytes = vec![0x01];
    bytes.extend((text.len() as u16).to_be_bytes());
    bytes.extend(text.bytes());
    bytes
}

fn class(name_idx: u16) -> Vec<u8> {
    let mut bytes = vec![0x07];
    bytes.extend(name_idx.to_be_bytes());
    bytes
}

fn attribute(name_idx: u16, info: &[u8]) -> Vec<u8> {
    let mut bytes = Vec::new();
    bytes.extend(name_idx.to_be_bytes());
    bytes.extend((info.len() as u32).to_be_bytes());
    bytes.extend(info);
    bytes
}

fn member(flags: u16, name_idx: u16, descriptor_idx: u16, attributes: &[Vec<u8>]) -> Vec<u8> {
    let mut bytes = Vec::new();
    bytes.extend(flags.to_be_bytes());
    bytes.extend(name_idx.to_be_bytes());
    bytes.extend(descriptor_idx.to_be_bytes());
    bytes.extend((attributes.len() as u16).to_be_bytes());
    for attribute in attributes {
        bytes.extend(attribute);
    }
    bytes
}

fn code(max_stack: u16, max_locals: u16, code: &[u8]) -> Vec<u8> {
    let mut bytes = Vec::new();
    bytes.extend(max_stack.to_be_bytes());
    bytes.extend(max_locals.to_be_bytes());
    bytes.extend((code.len() as u32).to_be_bytes());
    bytes.extend(code);
    bytes.extend(0u16.to_be_bytes());
    bytes.extend(0u16.to_be_bytes());
    bytes
}

/// A class `com/example/Main` that extends `java/lang/Object`, implements two
/// interfaces, has one field with one attribute, the method `main` with a code
/// attribute, and one attribute of its own.
fn sample_class_file() -> Vec<u8> {
    let mut bytes = vec![0xCA, 0xFE, 0xBA, 0xBE, 0x00, 0x00, 0x00, 0x34];
    bytes.extend(11u16.to_be_bytes());
    bytes.extend(class(2));
    bytes.extend(utf8("com/example/Main"));
    bytes.extend(class(4));
    bytes.extend(utf8("java/lang/Object"));
    bytes.extend(utf8("main"));
    bytes.extend(utf8("([Ljava/lang/String;)V"));
    bytes.extend(utf8("Code"));
    bytes.extend(utf8("count"));
    bytes.extend(utf8("I"));
    bytes.extend([0x03, 0x00, 0x00, 0x00, 0x2A]);
    bytes.extend(0x0021u16.to_be_bytes());
    bytes.extend(1u16.to_be_bytes());
    bytes.extend(3u16.to_be_bytes());
    bytes.extend(2u16.to_be_bytes());
    bytes.extend(3u16.to_be_bytes());
    bytes.extend(1u16.to_be_bytes());
    bytes.extend(1u16.to_be_bytes());
    bytes.extend(member(0x0002, 8, 9, &[attribute(8, &[0x00, 0x0A])]));
    bytes.extend(1u16.to_be_bytes());
    bytes.extend(member(0x0009, 5, 6, &[attribute(7, &code(0, 1, &[0xB1]))]));
    bytes.extend(1u16.to_be_bytes());
    bytes.extend(attribute(9, &[0xDE, 0xAD, 0xBE, 0xEF]));
    bytes
}

#[test]
fn a_class_file_decodes_to_its_pool_its_indices_and_its_methods() {
    let bytes = sample_class_file();
    let mut reader = ByteReader::new(&bytes);

    let class_file = ClassFile::read_from(&mut reader).unwrap();

    assert_eq!(reader.position(), bytes.len());
    assert_eq!(class_file.this_class, 1);
    assert_eq!(class_file.super_class, 3);
    assert_eq!(class_file.const_pool.len(), 10);
    assert_eq!(class_file.const_pool.get_class(1), Ok(&Class { name_idx: 2 }));
    assert_eq!(
        class_file.const_pool.get_utf8(2),
        Ok(&Utf8 { bytes: "com/example/Main".to_string() })
    );
    assert_eq!(class_file.const_pool.get_const(10), Ok(&Const::Opaque));
    assert_eq!(class_file.methods.len(), 1);
    let method = &class_file.methods[0];
    assert_eq!(method.name_idx, 5);
    assert_eq!(method.descriptor_idx, 6);
    assert_eq!(method.attributes.len(), 1);
    assert_eq!(method.attributes[0].name_idx, 7);
    assert_eq!(method.attributes[0].info, code(0, 1, &[0xB1]));
}

#[test]
fn bytes_behind_a_class_file_are_left_unread() {
    let mut bytes = sample_class_file();
    let end = bytes.len();
    bytes.extend([1, 2, 3]);
    let mut reader = ByteReader::new(&bytes);

    let class_file = ClassFile::read_from(&mut reader).unwrap();

    assert_eq!(reader.position(), end);
    assert_eq!(reader.remaining(), 3);
    assert_eq!(class_file.methods.len(), 1);
}

#[test]
fn a_class_file_that_lost_its_end_is_refused_as_truncated() {
    let bytes = sample_class_file();

    for k in 0..bytes.len() {
        let result = ClassFile::read_from(&mut ByteReader::new(&bytes[..k]));

        assert!(
            matches!(result, Err(DecodeError::Truncated { .. })),
            "the first {} bytes gave {:?}",
            k,
            result
        );
    }
}

#[test]
fn truncation_names_the_field_that_was_cut() {
    let bytes = sample_class_file();

    assert_eq!(
        ClassFile::read_from(&mut ByteReader::new(&bytes[..7])).err(),
        Some(DecodeError::Truncated {
            field: Field::Header,
            short: ShortRead { needed: 8, available: 7 },
        })
    );
    assert_eq!(
        ClassFile::read_from(&mut ByteReader::new(&bytes[..9])).err(),
        Some(DecodeError::Truncated {
            field: Field::ConstantCount,
            short: ShortRead { needed: 2, available: 1 },
        })
    );
    assert_eq!(
        ClassFile::read_from(&mut ByteReader::new(&bytes[..bytes.len() - 1])).err(),
        Some(DecodeError::Truncated {
            field: Field::AttributeInfo,
            short: ShortRead { needed: 4, available: 3 },
        })
    );
}

#[test]
fn the_header_is_not_checked() {
    let mut bytes = sample_class_file();
    for byte in &mut bytes[..8] {
        *byte = 0;
    }

    let class_file = ClassFile::read_from(&mut ByteReader::new(&bytes)).unwrap();

    assert_eq!(class_file.this_class, 1);
}

#[test]
fn an_unknown_tag_in_the_pool_fails_the_class_file() {
    let mut bytes = vec![0xCA, 0xFE, 0xBA, 0xBE, 0x00, 0x00, 0x00, 0x34];
    bytes.extend(3u16.to_be_bytes());
    bytes.extend(class(2));
    bytes.extend([0x11, 0x00, 0x00, 0x00, 0x00]);

    assert_eq!(
        ClassFile::read_from(&mut ByteReader::new(&bytes)).err(),
        Some(DecodeError::UnknownTag { tag: 0x11 })
    );
}

#[test]
fn the_smallest_class_file() {
    let mut bytes = vec![0; 8];
    bytes.extend(1u16.to_be_bytes());
    bytes.extend([0x00, 0x01, 0x00, 0x07, 0x00, 0x09]);
    bytes.extend([0x00, 0x00, 0x00, 0x00, 0x00, 0x00, 0x00, 0x00]);
    let mut reader = ByteReader::new(&bytes);

    let class_file = ClassFile::read_from(&mut reader).unwrap();

    assert_eq!(reader.position(), 24);
    assert_eq!(class_file.const_pool.len(), 0);
    assert_eq!(class_file.this_class, 7);
    assert_eq!(class_file.super_class, 9);
    assert!(class_file.methods.is_empty());
}

#[test]
fn an_attribute_is_a_name_and_a_length_prefixed_blob() {
    let bytes = [0x00, 0x07, 0x00, 0x00, 0x00, 0x03, 0xAA, 0xBB, 0xCC, 0xDD];
    let mut reader = ByteReader::new(&bytes);

    let attribute = Attribute::from_reader(&mut reader).unwrap();

    assert_eq!(attribute.name_idx, 7);
    assert_eq!(attribute.info, vec![0xAA, 0xBB, 0xCC]);
    assert_eq!(reader.position(), 9);
}

#[test]
fn an_attribute_shorter_than_its_length_is_refused() {
    let bytes = [0x00, 0x07, 0x00, 0x00, 0x00, 0x03, 0xAA, 0xBB];
    assert_eq!(
        Attribute::from_reader(&mut ByteReader::new(&bytes)).err(),
        Some(DecodeError::Truncated {
            field: Field::AttributeInfo,
            short: ShortRead { needed: 3, available: 2 },
        })
    );
    let bytes = [0x00, 0x07, 0xFF, 0xFF, 0xFF, 0xFF, 0xAA];
    assert_eq!(
        Attribute::from_reader(&mut ByteReader::new(&bytes)).err(),
        Some(DecodeError::Truncated {
            field: Field::AttributeInfo,
            short: ShortRead { needed: 0xFFFF_FFFF, available: 1 },
        })
    );
    let bytes = [0x00, 0x07, 0x00, 0x00];
    assert_eq!(
        Attribute::from_reader(&mut ByteReader::new(&bytes)).err(),
        Some(DecodeError::Truncated {
            field: Field::AttributeLength,
            short: ShortRead { needed: 4, available: 2 },
        })
    );
}

#[test]
fn an_attribute_list_keeps_the_order_of_the_stream() {
    let mut bytes = 3u16.to_be_bytes().to_vec();
    bytes.extend(attribute(1, &[]));
    bytes.extend(attribute(2, &[9]));
    bytes.extend(attribute(3, &[8, 7]));
    let mut reader = ByteReader::new(&bytes);

    let attributes = read_attributes(&mut reader).unwrap();

    assert_eq!(reader.position(), bytes.len());
    assert_eq!(attributes.len(), 3);
    assert_eq!((attributes[0].name_idx, attributes[0].info.clone()), (1, vec![]));
    assert_eq!((attributes[1].name_idx, attributes[1].info.clone()), (2, vec![9]));
    assert_eq!((attributes[2].name_idx, attributes[2].info.clone()), (3, vec![8, 7]));
}

#[test]
fn a_method_keeps_its_attributes_as_they_came() {
    let bytes = member(0x0001, 0x0102, 0x0304, &[attribute(5, &[1, 2]), attribute(6, &[])]);
    let mut reader = ByteReader::new(&bytes);

    let method = Method::from_reader(&mut reader).unwrap();

    assert_eq!(reader.position(), bytes.len());
    assert_eq!(method.name_idx, 0x0102);
    assert_eq!(method.descriptor_idx, 0x0304);
    assert_eq!(method.attributes.len(), 2);
    assert_eq!(method.attributes[0].info, vec![1, 2]);
    assert_eq!(method.attributes[1].name_idx, 6);
}

#[test]
fn a_member_list_reads_as_many_members_as_it_declares() {
    let mut bytes = 2u16.to_be_bytes().to_vec();
    bytes.extend(member(0, 1, 2, &[]));
    bytes.extend(member(0, 3, 4, &[attribute(5, &[6])]));
    bytes.extend(member(0, 7, 8, &[]));
    let mut reader = ByteReader::new(&bytes);

    let members = read_members(&mut reader, Field::MethodCount).unwrap();

    assert_eq!(members.len(), 2);
    assert_eq!(members[0].name_idx, 1);
    assert_eq!(members[1].descriptor_idx, 4);
    assert_eq!(reader.remaining(), 8);
    assert_eq!(
        read_members(&mut ByteReader::new(&bytes[..1]), Field::FieldCount).err(),
        Some(DecodeError::Truncated {
            field: Field::FieldCount,
            short: ShortRead { needed: 2, available: 1 },
        })
    );
}

fn field(label: Field, bytes: &[u8]) -> (Field, Vec<u8>) {
    (label, bytes.to_vec())
}

fn text_fields(text: &str) -> Vec<(Field, Vec<u8>)> {
    vec![
        field(Field::ConstantTag, &[0x01]),
        field(Field::Utf8Length, &(text.len() as u16).to_be_bytes()),
        field(Field::Utf8Bytes, text.as_bytes()),
    ]
}

fn attribute_fields(name_idx: u16, info: &[u8]) -> Vec<(Field, Vec<u8>)> {
    vec![
        field(Field::AttributeNameIndex, &name_idx.to_be_bytes()),
        field(Field::AttributeLength, &(info.len() as u32).to_be_bytes()),
        field(Field::AttributeInfo, info),
    ]
}

/// A class file, field by field, with the name of each field.
fn labelled_class_file() -> Vec<(Field, Vec<u8>)> {
    let mut fields = vec![
        field(Field::Header, &[0xCA, 0xFE, 0xBA, 0xBE, 0x00, 0x00, 0x00, 0x34]),
        field(Field::ConstantCount, &[0x00, 0x06]),
        field(Field::ConstantTag, &[0x07]),
        field(Field::ClassNameIndex, &[0x00, 0x02]),
    ];
    fields.extend(text_fields("Main"));
    fields.extend(text_fields("run"));
    fields.extend(vec![
        field(Field::ConstantTag, &[0x06]),
        field(Field::ConstantPayload, &[0, 1, 2, 3, 4, 5, 6, 7]),
        field(Field::ConstantTag, &[0x0F]),
        field(Field::ConstantPayload, &[1, 0, 3]),
        field(Field::ClassAccessFlags, &[0x00, 0x21]),
        field(Field::ThisClass, &[0x00, 0x01]),
        field(Field::SuperClass, &[0x00, 0x00]),
        field(Field::InterfaceCount, &[0x00, 0x03]),
        field(Field::Interfaces, &[0, 1, 0, 1, 0, 1]),
        field(Field::FieldCount, &[0x00, 0x01]),
        field(Field::MemberAccessFlags, &[0x00, 0x02]),
        field(Field::MemberNameIndex, &[0x00, 0x03]),
        field(Field::MemberDescriptorIndex, &[0x00, 0x03]),
        field(Field::AttributeCount, &[0x00, 0x02]),
    ]);
    fields.extend(attribute_fields(3, &[1]));
    fields.extend(attribute_fields(2, &[2, 3]));
    fields.extend(vec![
        field(Field::MethodCount, &[0x00, 0x02]),
        field(Field::MemberAccessFlags, &[0x00, 0x01]),
        field(Field::MemberNameIndex, &[0x00, 0x03]),
        field(Field::MemberDescriptorIndex, &[0x00, 0x02]),
        field(Field::AttributeCount, &[0x00, 0x01]),
    ]);
    fields.extend(attribute_fields(3, &[0xB1, 0xB1, 0xB1]));
    fields.extend(vec![
        field(Field::MemberAccessFlags, &[0x00, 0x01]),
        field(Field::MemberNameIndex, &[0x00, 0x02]),
        field(Field::MemberDescriptorIndex, &[0x00, 0x03]),
        field(Field::AttributeCount, &[0x00, 0x00]),
        field(Field::AttributeCount, &[0x00, 0x01]),
    ]);
    fields.extend(attribute_fields(9, &[7, 7, 7, 7, 7]));
    fields
}

#[test]
fn every_cut_of_a_class_file_is_laid_to_the_field_it_falls_in() {
    let fields = labelled_class_file();
    let bytes: Vec<u8> = fields.iter().flat_map(|(_, bytes)| bytes.clone()).collect();
    let class_file = ClassFile::read_from(&mut ByteReader::new(&bytes)).unwrap();
    assert_eq!(class_file.const_pool.len(), 5);
    assert_eq!(class_file.methods.len(), 2);
    assert_eq!(class_file.methods[0].attributes[0].info, vec![0xB1, 0xB1, 0xB1]);
    assert!(class_file.methods[1].attributes.is_empty());

    let mut start = 0;
    for (label, field_bytes) in &fields {
        for available in 0..field_bytes.len() {
            let cut = start + available;

            assert_eq!(
                ClassFile::read_from(&mut ByteReader::new(&bytes[..cut])).err(),
                Some(DecodeError::Truncated {
                    field: *label,
                    short: ShortRead { needed: field_bytes.len(), available },
                }),
                "cut at {}",
                cut
            );
        }
        start += field_bytes.len();
    }
    assert_eq!(start, bytes.len());
}

#[test]
fn a_failed_read_leaves_the_reader_where_it_was() {
    let bytes = sample_class_file();
    let cut = &bytes[..bytes.len() - 3];
    let mut reader = ByteReader::new(cut);

    assert!(ClassFile::read_from(&mut reader).is_err());
    assert_eq!(reader.position(), 0);
    assert_eq!(reader.remaining(), cut.len());

    let list = [0x00, 0x02, 0x00, 0x01, 0x00, 0x00, 0x00, 0x00, 0x00, 0x02, 0x00, 0x00];
    let mut reader = ByteReader::new(&list[2..]);
    assert!(Attribute::from_reader(&mut reader).is_ok());
    assert_eq!(reader.position(), 6);
    assert!(Attribute::from_reader(&mut reader).is_err());
    assert_eq!(reader.position(), 6);
    let mut reader = ByteReader::new(&list);
    assert!(read_attributes(&mut reader).is_err());
    assert_eq!(reader.position(), 0);
    let mut reader = ByteReader::new(&list[..7]);
    assert!(Method::from_reader(&mut reader).is_err());
    assert_eq!(reader.position(), 0);
    assert!(read_members(&mut reader, Field::MethodCount).is_err());
    assert_eq!(reader.position(), 0);
}

#[test]
fn a_fork_reads_on_its_own() {
    let bytes = [0x00, 0x07, 0x00, 0x00, 0x00, 0x01, 0xAA];
    let mut reader = ByteReader::new(&bytes);
    let mut fork = reader.fork();

    assert_eq!(Attribute::from_reader(&mut fork).unwrap().info, vec![0xAA]);

    assert_eq!(fork.position(), 7);
    assert_eq!(reader.position(), 0);
    assert_eq!(Attribute::from_reader(&mut reader).unwrap().name_idx, 7);
}
