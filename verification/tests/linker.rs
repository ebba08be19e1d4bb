use std::rc::Rc;

use robusta::class_file::{Attribute, ClassFile, Method};
use robusta::constant_pool::{Class, Const, ConstKind, ConstPool, PoolError, Utf8};
use robusta::decode::{DecodeError, Field};
use robusta::interp::{create_thread, run, run_thread, RunError};
use robusta::linker::{class_name, insert_class, link_class, link_method, LinkError, RuntimeClass};
use robusta::reader::{ByteReader, ShortRead};
use robusta::lookup::{find_main_method, find_method, method_of, LookupError};
use robusta::registry::ClassRegistry;

fn utf8(text: &str) -> Const {
    Const::Utf8(Utf8 { bytes: text.to_string() })
}

fn class(name_idx: u16) -> Const {
    Const::Class(Class { name_idx })
}

fn code_info(code: &[u8]) -> Vec<u8> {
    let mut bytes = vec![0x00, 0x02, 0x00, 0x01];
    bytes.extend((code.len() as u32).to_be_bytes());
    bytes.extend(code);
    bytes.extend([0x00, 0x00, 0x00, 0x00]);
    bytes
}

/// 1: class -> 2, 2: the class name, 3: class -> 4, 4: the super class name,
/// 5: "main", 6: the descriptor of main, 7: "Code", 8: "()V", 9: "LineNumberTable",
/// 10: an opaque constant.
fn pool(name: &str) -> ConstPool {
    ConstPool::new(vec![
        class(2),
        utf8(name),
        class(4),
        utf8("java/lang/Object"),
        utf8("main"),
        utf8("([Ljava/lang/String;)V"),
        utf8("Code"),
        utf8("()V"),
        utf8("LineNumberTable"),
        Const::Opaque,
    ])
}

fn method(name_idx: u16, descriptor_idx: u16, code: &[u8]) -> Method {
    Method {
        name_idx,
        descriptor_idx,
        attributes: vec![Attribute { name_idx: 7, info: code_info(code) }],
    }
}

fn class_file(name: &str, methods: Vec<Method>) -> ClassFile {
    ClassFile { const_pool: pool(name), this_class: 1, super_class: 3, methods }
}

/// The bytes of a class file that defines the one method `main` with the
/// body `0xB1`.
fn minimal_class_file_bytes() -> Vec<u8> {
    let mut bytes = vec![0xCA, 0xFE, 0xBA, 0xBE, 0x00, 0x00, 0x00, 0x34];
    bytes.extend(8u16.to_be_bytes());
    for entry in [
        vec![0x07, 0x00, 0x02],
        text_entry("com/jkitch/robusta/test/EmptyMain"),
        vec![0x07, 0x00, 0x04],
        text_entry("java/lang/Object"),
        text_entry("main"),
        text_entry("([Ljava/lang/String;)V"),
        text_entry("Code"),
    ] {
        bytes.extend(entry);
    }
    bytes.extend([0x00, 0x21, 0x00, 0x01, 0x00, 0x03]);
    bytes.extend([0x00, 0x00]);
    bytes.extend([0x00, 0x00]);
    bytes.extend([0x00, 0x01]);
    bytes.extend([0x00, 0x09, 0x00, 0x05, 0x00, 0x06, 0x00, 0x01]);
    bytes.extend([0x00, 0x07]);
    let info = code_info(&[0xB1]);
    bytes.extend((info.len() as u32).to_be_bytes());
    bytes.extend(info);
    bytes.extend([0x00, 0x00]);
    bytes
}

fn text_entry(text: &str) -> Vec<u8> {
    let mut bytes = vec![0x01];
    bytes.extend((text.len() as u16).to_be_bytes());
    bytes.extend(text.bytes());
    bytes
}

#[test]
fn a_minimal_class_links_and_its_main_method_runs_to_the_end() {
    let bytes = minimal_class_file_bytes();
    let mut reader = ByteReader::new(&bytes);
    let class_file = ClassFile::read_from(&mut reader).unwrap();
    assert_eq!(reader.remaining(), 0);
    let mut classes = ClassRegistry::new();

    let class = insert_class(&mut classes, class_file).unwrap();

    assert_eq!(class.binary_name, "com/jkitch/robusta/test/EmptyMain");
    assert_eq!(class.super_class.as_deref(), Some("java/lang/Object"));
    assert_eq!(class.methods.len(), 1);
    let main = find_main_method(&classes, "com.jkitch.robusta.test.EmptyMain").unwrap();
    assert_eq!(main.name, "main");
    assert_eq!(main.descriptor, "([Ljava/lang/String;)V");
    assert_eq!(main.code.code, vec![0xB1]);
    assert_eq!(main.code.max_stack, 2);
    assert_eq!(main.code.max_locals, 1);
    assert_eq!(run(main), Ok(()));
    let mut thread = create_thread(main);
    assert_eq!(thread.frames.len(), 1);
    assert_eq!(run_thread(&mut thread), Ok(()));
    assert!(thread.frames.is_empty());
}

#[test]
fn a_class_that_is_not_in_the_table_is_unknown() {
    let mut classes = ClassRegistry::new();
    insert_class(&mut classes, class_file("com/example/Main", vec![method(5, 6, &[0xB1])]))
        .unwrap();

    assert_eq!(
        find_main_method(&classes, "com.example.Other").err(),
        Some(LookupError::UnknownClass { name: "com.example.Other".to_string() })
    );
    assert_eq!(
        find_main_method(&classes, "com/example/Main").err(),
        Some(LookupError::UnknownClass { name: "com/example/Main".to_string() })
    );
    assert_eq!(
        find_main_method(&ClassRegistry::new(), "com.example.Main").err(),
        Some(LookupError::UnknownClass { name: "com.example.Main".to_string() })
    );
}

#[test]
fn the_descriptor_picks_among_methods_of_one_name() {
    let mut classes = ClassRegistry::new();
    insert_class(
        &mut classes,
        class_file(
            "Main",
            vec![method(5, 8, &[0x00]), method(5, 6, &[0xB1]), method(5, 6, &[0x01])],
        ),
    )
    .unwrap();

    let main = find_main_method(&classes, "Main").unwrap();
    assert_eq!(main.descriptor, "([Ljava/lang/String;)V");
    assert_eq!(main.code.code, vec![0xB1]);
    let other = find_method(&classes, "Main", "main", "()V").unwrap();
    assert_eq!(other.descriptor, "()V");
    assert_eq!(other.code.code, vec![0x00]);
}

#[test]
fn a_method_that_is_not_in_the_class_is_unknown() {
    let mut classes = ClassRegistry::new();
    insert_class(&mut classes, class_file("Main", vec![method(5, 8, &[0xB1])])).unwrap();

    assert_eq!(
        find_main_method(&classes, "Main").err(),
        Some(LookupError::UnknownMethod {
            class: "Main".to_string(),
            name: "main".to_string(),
            descriptor: "([Ljava/lang/String;)V".to_string(),
        })
    );
    assert_eq!(
        find_method(&classes, "Main", "()V", "main").err(),
        Some(LookupError::UnknownMethod {
            class: "Main".to_string(),
            name: "()V".to_string(),
            descriptor: "main".to_string(),
        })
    );
    assert!(find_method(&classes, "Main", "main", "()V").is_ok());
}

#[test]
fn method_of_finds_the_first_match() {
    let class =
        link_class(&class_file("Main", vec![method(5, 6, &[1]), method(5, 6, &[2])])).unwrap();

    assert_eq!(
        method_of(&class, "main", "([Ljava/lang/String;)V").map(|m| m.code.code.clone()),
        Some(vec![1])
    );
    assert!(method_of(&class, "main", "()V").is_none());
    assert!(method_of(&class, "mai", "([Ljava/lang/String;)V").is_none());
}

#[test]
fn linking_resolves_names_and_keeps_the_order_of_the_methods() {
    let class = link_class(&class_file(
        "com/example/Main",
        vec![method(5, 6, &[0xB1]), method(8, 5, &[0x00, 0xB1]), method(9, 8, &[])],
    ))
    .unwrap();

    assert_eq!(class.binary_name, "com/example/Main");
    assert_eq!(class.super_class.as_deref(), Some("java/lang/Object"));
    let names: Vec<(&str, &str, Vec<u8>)> = class
        .methods
        .iter()
        .map(|m| (m.name.as_str(), m.descriptor.as_str(), m.code.code.clone()))
        .collect();
    assert_eq!(
        names,
        vec![
            ("main", "([Ljava/lang/String;)V", vec![0xB1]),
            ("()V", "main", vec![0x00, 0xB1]),
            ("LineNumberTable", "()V", vec![]),
        ]
    );
}

#[test]
fn a_super_class_index_of_zero_means_no_super_class() {
    let mut file = class_file("java/lang/Object", vec![]);
    file.super_class = 0;

    let class = link_class(&file).unwrap();

    assert_eq!(class.super_class, None);
    assert!(class.methods.is_empty());
}

#[test]
fn references_that_do_not_resolve_fail_the_linking() {
    let mut file = class_file("Main", vec![]);
    file.this_class = 0;
    assert_eq!(
        link_class(&file).err(),
        Some(LinkError::Pool(PoolError::OutOfRange { index: 0 }))
    );
    file.this_class = 11;
    assert_eq!(
        link_class(&file).err(),
        Some(LinkError::Pool(PoolError::OutOfRange { index: 11 }))
    );
    file.this_class = 2;
    assert_eq!(
        link_class(&file).err(),
        Some(LinkError::Pool(PoolError::WrongKind {
            index: 2,
            expected: ConstKind::Class,
            found: ConstKind::Utf8,
        }))
    );
    file.this_class = 1;
    file.super_class = 10;
    assert_eq!(
        link_class(&file).err(),
        Some(LinkError::Pool(PoolError::WrongKind {
            index: 10,
            expected: ConstKind::Class,
            found: ConstKind::Opaque,
        }))
    );
}

#[test]
fn a_class_constant_must_lead_to_text() {
    let file = ClassFile {
        const_pool: ConstPool::new(vec![class(1), class(5)]),
        this_class: 1,
        super_class: 0,
        methods: vec![],
    };
    assert_eq!(
        link_class(&file).err(),
        Some(LinkError::Pool(PoolError::WrongKind {
            index: 1,
            expected: ConstKind::Utf8,
            found: ConstKind::Class,
        }))
    );
    assert_eq!(
        class_name(&file.const_pool, 2),
        Err(PoolError::OutOfRange { index: 5 })
    );
    assert_eq!(class_name(&pool("a/B"), 1), Ok("a/B".to_string()));
}

#[test]
fn the_first_method_that_fails_decides_the_error() {
    let file = class_file(
        "Main",
        vec![method(5, 6, &[0xB1]), method(1, 6, &[0xB1]), method(5, 0, &[0xB1])],
    );

    assert_eq!(
        link_class(&file).err(),
        Some(LinkError::Pool(PoolError::WrongKind {
            index: 1,
            expected: ConstKind::Utf8,
            found: ConstKind::Class,
        }))
    );
    assert_eq!(
        link_method(&file.const_pool, &file.methods[2]).err(),
        Some(LinkError::Pool(PoolError::OutOfRange { index: 0 }))
    );
}

#[test]
fn a_method_without_a_code_attribute_gets_an_empty_body() {
    let without = Method { name_idx: 5, descriptor_idx: 6, attributes: vec![] };
    let with_others = Method {
        name_idx: 5,
        descriptor_idx: 6,
        attributes: vec![
            Attribute { name_idx: 9, info: vec![1, 2, 3] },
            Attribute { name_idx: 1, info: vec![] },
            Attribute { name_idx: 0, info: vec![] },
            Attribute { name_idx: 99, info: vec![] },
        ],
    };

    for method in [without, with_others] {
        let linked = link_method(&pool("Main"), &method).unwrap();

        assert_eq!(linked.name, "main");
        assert_eq!(linked.code.max_stack, 0);
        assert_eq!(linked.code.max_locals, 0);
        assert!(linked.code.code.is_empty());
        assert!(linked.code.exception_table.is_empty());
    }
}

#[test]
fn the_first_code_attribute_is_the_body() {
    let method = Method {
        name_idx: 5,
        descriptor_idx: 6,
        attributes: vec![
            Attribute { name_idx: 99, info: code_info(&[1]) },
            Attribute { name_idx: 9, info: code_info(&[2]) },
            Attribute { name_idx: 7, info: code_info(&[3]) },
            Attribute { name_idx: 7, info: code_info(&[4]) },
        ],
    };

    let linked = link_method(&pool("Main"), &method).unwrap();

    assert_eq!(linked.code.code, vec![3]);
}

#[test]
fn a_code_attribute_that_does_not_decode_fails_the_linking() {
    let method = Method {
        name_idx: 5,
        descriptor_idx: 6,
        attributes: vec![Attribute { name_idx: 7, info: vec![0x00, 0x01, 0x00] }],
    };

    assert_eq!(
        link_method(&pool("Main"), &method).err(),
        Some(LinkError::Code(DecodeError::Truncated {
            field: Field::MaxLocals,
            short: ShortRead { needed: 2, available: 1 },
        }))
    );
    assert_eq!(
        link_class(&class_file("Main", vec![method])).err(),
        Some(LinkError::Code(DecodeError::Truncated {
            field: Field::MaxLocals,
            short: ShortRead { needed: 2, available: 1 },
        }))
    );
}

#[test]
fn bytes_behind_the_body_in_a_code_attribute_are_left_unread() {
    let mut info = code_info(&[0xB1]);
    info.extend([0xFF, 0xFF]);
    let method = Method {
        name_idx: 5,
        descriptor_idx: 6,
        attributes: vec![Attribute { name_idx: 7, info }],
    };

    assert_eq!(link_method(&pool("Main"), &method).unwrap().code.code, vec![0xB1]);
}

#[test]
fn a_class_is_found_under_its_dotted_name() {
    let mut classes = ClassRegistry::new();

    let class =
        insert_class(&mut classes, class_file("com/example/Main", vec![method(5, 6, &[0xB1])]))
            .unwrap();

    assert_eq!(classes.len(), 1);
    assert_eq!(class.binary_name, "com/example/Main");
    assert!(classes.get("com/example/Main").is_none());
    let found = classes.get("com.example.Main").unwrap();
    assert!(Rc::ptr_eq(found, &class));
}

#[test]
fn a_class_of_the_same_name_takes_the_place_of_the_earlier_one() {
    let mut classes = ClassRegistry::new();
    insert_class(&mut classes, class_file("a/A", vec![method(5, 6, &[1])])).unwrap();
    insert_class(&mut classes, class_file("a/B", vec![method(5, 6, &[2])])).unwrap();

    insert_class(&mut classes, class_file("a/A", vec![method(5, 6, &[3])])).unwrap();

    assert_eq!(classes.len(), 2);
    assert_eq!(find_main_method(&classes, "a.A").unwrap().code.code, vec![3]);
    assert_eq!(find_main_method(&classes, "a.B").unwrap().code.code, vec![2]);
}

#[test]
fn a_class_that_does_not_link_leaves_the_table_as_it_was() {
    let mut classes = ClassRegistry::new();
    insert_class(&mut classes, class_file("a/A", vec![method(5, 6, &[1])])).unwrap();
    let mut broken = class_file("a/A", vec![method(5, 6, &[2])]);
    broken.super_class = 2;

    let result = insert_class(&mut classes, broken);

    assert_eq!(
        result.err(),
        Some(LinkError::Pool(PoolError::WrongKind {
            index: 2,
            expected: ConstKind::Class,
            found: ConstKind::Utf8,
        }))
    );
    assert_eq!(classes.len(), 1);
    assert_eq!(find_main_method(&classes, "a.A").unwrap().code.code, vec![1]);
}

#[test]
fn the_table_replaces_and_finds_by_name() {
    let class = |name: &str| {
        Rc::new(RuntimeClass { binary_name: name.to_string(), super_class: None, methods: vec![] })
    };
    let mut classes = ClassRegistry::new();
    assert_eq!(classes.len(), 0);
    assert!(classes.get("x").is_none());

    classes.insert("x".to_string(), class("first"));
    classes.insert("y".to_string(), class("second"));
    classes.insert("x".to_string(), class("third"));

    assert_eq!(classes.len(), 2);
    assert_eq!(classes.get("x").unwrap().binary_name, "third");
    assert_eq!(classes.get("y").unwrap().binary_name, "second");
    assert!(classes.get("z").is_none());
}

#[test]
fn an_unknown_opcode_in_main_fails_the_run() {
    let mut classes = ClassRegistry::new();
    insert_class(&mut classes, class_file("Main", vec![method(5, 6, &[0x00])])).unwrap();

    let main = find_main_method(&classes, "Main").unwrap();

    assert_eq!(run(main), Err(RunError::UnknownInstruction { opcode: 0x00 }));
}
