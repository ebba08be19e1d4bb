use robusta::constant_pool::{ConstKind, PoolError};
use robusta::decode::{DecodeError, Field};
use robusta::linker::LinkError;
use robusta::loader::{is_class_entry, load_class, LoadError};
use robusta::reader::ShortRead;
use robusta::lookup::find_main_method;
use robusta::registry::ClassRegistry;
use robusta::text::ends_with;

fn text_entry(text: &str) -> Vec<u8> {
    let mut bytes = vec![0x01];
    bytes.extend((text.len() as u16).to_be_bytes());
    bytes.extend(text.bytes());
    bytes
}

/// The bytes of a class file that defines the class `name` with the one
/// method `main`, whose body is `code`.
fn class_file_bytes(name: &str, this_class: u16, code: &[u8]) -> Vec<u8> {
    let mut bytes = vec![0xCA, 0xFE, 0xBA, 0xBE, 0x00, 0x00, 0x00, 0x34];
    bytes.extend(6u16.to_be_bytes());
    bytes.extend([0x07, 0x00, 0x02]);
    bytes.extend(text_entry(name));
    bytes.extend(text_entry("main"));
    bytes.extend(text_entry("([Ljava/lang/String;)V"));
    bytes.extend(text_entry("Code"));
    bytes.extend([0x00, 0x21]);
    bytes.extend(this_class.to_be_bytes());
    bytes.extend([0x00, 0x00]);
    bytes.extend([0x00, 0x00]);
    bytes.extend([0x00, 0x00]);
    bytes.extend([0x00, 0x01]);
    bytes.extend([0x00, 0x09, 0x00, 0x03, 0x00, 0x04, 0x00, 0x01]);
    bytes.extend([0x00, 0x05]);
    bytes.extend((code.len() as u32 + 12).to_be_bytes());
    bytes.extend([0x00, 0x00, 0x00, 0x01]);
    bytes.extend((code.len() as u32).to_be_bytes());
    bytes.extend(code);
    bytes.extend([0x00, 0x00, 0x00, 0x00]);
    bytes.extend([0x00, 0x00]);
    bytes
}

#[test]
fn entries_that_hold_class_files() {
    assert!(is_class_entry("com/jkitch/robusta/test/EmptyMain.class"));
    assert!(is_class_entry(".class"));
    assert!(is_class_entry("\u{1f600}.class"));
    assert!(!is_class_entry("META-INF/MANIFEST.MF"));
    assert!(!is_class_entry("Main.java"));
    assert!(!is_class_entry("Main.class/"));
    assert!(!is_class_entry("Main.CLASS"));
    assert!(!is_class_entry("Mainclass"));
    assert!(!is_class_entry("class"));
    assert!(!is_class_entry(""));
}

#[test]
fn suffixes() {
    assert!(ends_with("abc", "bc"));
    assert!(ends_with("abc", "abc"));
    assert!(ends_with("abc", ""));
    assert!(ends_with("", ""));
    assert!(!ends_with("abc", "ab"));
    assert!(!ends_with("bc", "abc"));
    assert!(!ends_with("", "a"));
    assert!(ends_with("na\u{ef}ve", "\u{ef}ve"));
}

#[test]
fn loading_puts_the_class_under_its_dotted_name() {
    let mut classes = ClassRegistry::new();

    let class = load_class(&mut classes, &class_file_bytes("a/b/C", 1, &[0xB1])).unwrap();

    assert_eq!(class.binary_name, "a/b/C");
    assert_eq!(class.super_class, None);
    assert_eq!(classes.len(), 1);
    assert_eq!(find_main_method(&classes, "a.b.C").unwrap().code.code, vec![0xB1]);
}

#[test]
fn bytes_that_are_no_class_file_leave_the_table_as_it_was() {
    let mut classes = ClassRegistry::new();
    load_class(&mut classes, &class_file_bytes("a/b/C", 1, &[0xB1])).unwrap();
    let bytes = class_file_bytes("a/b/C", 1, &[0x00]);

    let result = load_class(&mut classes, &bytes[..bytes.len() - 1]);

    assert_eq!(
        result.err(),
        Some(LoadError::Decode(DecodeError::Truncated {
            field: Field::AttributeCount,
            short: ShortRead { needed: 2, available: 1 },
        }))
    );
    assert_eq!(classes.len(), 1);
    assert_eq!(find_main_method(&classes, "a.b.C").unwrap().code.code, vec![0xB1]);
}

#[test]
fn a_class_file_that_does_not_link_leaves_the_table_as_it_was() {
    let mut classes = ClassRegistry::new();

    let result = load_class(&mut classes, &class_file_bytes("a/b/C", 2, &[0xB1]));

    assert_eq!(
        result.err(),
        Some(LoadError::Link(LinkError::Pool(PoolError::WrongKind {
            index: 2,
            expected: ConstKind::Class,
            found: ConstKind::Utf8,
        })))
    );
    assert_eq!(classes.len(), 0);
}

#[test]
fn empty_main() {
    let mut classes = ClassRegistry::new();
    load_class(
        &mut classes,
        &class_file_bytes("com/jkitch/robusta/test/EmptyMain", 1, &[0xB1]),
    )
    .unwrap();

    let main = find_main_method(&classes, "com.jkitch.robusta.test.EmptyMain").unwrap();
    let mut thread = robusta::interp::create_thread(main);

    assert!(thread.halts());
    assert_eq!(robusta::interp::run_thread(&mut thread), Ok(()));
    assert!(thread.frames.is_empty());
}
