use vt6::common::foundation::ClientID;
use vt6::common::foundation::DecodeArgument;
use vt6::common::foundation::EncodeArgument;
use vt6::common::foundation::Identifier;
use vt6::common::foundation::MessageType;
use vt6::common::foundation::ModuleIdentifier;
use vt6::common::foundation::ModuleVersion;
use vt6::common::foundation::ScopedIdentifier;

fn check_is_unrecognizable(input: &str) {
    assert_eq!(Identifier::parse(input), None);
    assert_eq!(ModuleIdentifier::parse(input), None);
    assert_eq!(ModuleVersion::parse(input), None);
    assert_eq!(ScopedIdentifier::parse(input), None);
    assert_eq!(MessageType::parse(input), None);
}

fn check_is_identifier(input: &str) {
    match Identifier::parse(input) {
        Some(ident) => assert_eq!(input, ident.as_str()),
        None => panic!("input {} was not recognized as identifier", input),
    };
    //plain identifiers can not be any other sort of identifier from this module
    //(except for eternal message types, for which we use check_is_eternal_message_type
    //instead)
    assert_eq!(ModuleIdentifier::parse(input), None);
    assert_eq!(ModuleVersion::parse(input), None);
    assert_eq!(ScopedIdentifier::parse(input), None);
    assert_eq!(MessageType::parse(input), None);
}

fn check_is_module_identifier(input: &str) {
    match ModuleIdentifier::parse(input) {
        Some(ident) => assert_eq!(input, ident.as_str()),
        None => panic!("input {} was not recognized as module identifier", input),
    };
    //a module identifier is an identifier that ends with a major version...
    match Identifier::parse(input) {
        Some(ident) => assert_eq!(input, ident.as_str()),
        None => panic!("input {} was not recognized as identifier", input),
    };
    //...but not any other sort of identifier from this module (except maybe ClientID)
    assert_eq!(ModuleVersion::parse(input), None);
    assert_eq!(ScopedIdentifier::parse(input), None);
    assert_eq!(MessageType::parse(input), None);
}

fn check_is_module_version(input: &str) {
    match ModuleVersion::parse(input) {
        Some(ident) => assert_eq!(input, ident.as_str()),
        None => panic!("input {} was not recognized as module version", input),
    };
    //module version can not be any other sort of identifier from this module
    assert_eq!(ClientID::parse(input), None);
    assert_eq!(Identifier::parse(input), None);
    assert_eq!(ModuleIdentifier::parse(input), None);
    assert_eq!(ScopedIdentifier::parse(input), None);
    assert_eq!(MessageType::parse(input), None);
}

fn check_is_scoped_identifier(input: &str) {
    match ScopedIdentifier::parse(input) {
        Some(ident) => assert_eq!(input, ident.as_str()),
        None => panic!("input {} was not recognized as scoped identifier", input),
    };
    //every scoped identifier is also a valid message type
    match MessageType::parse(input) {
        Some(MessageType::Scoped(ident)) => assert_eq!(input, ident.as_str()),
        Some(msg_type) => panic!("input {} was misclassified as {:?}", input, msg_type),
        None => panic!("input {} was not recognized as message type", input),
    };
    //scoped identifiers are never plain identifiers or module identifiers
    assert_eq!(ClientID::parse(input), None);
    assert_eq!(Identifier::parse(input), None);
    assert_eq!(ModuleIdentifier::parse(input), None);
    assert_eq!(ModuleVersion::parse(input), None);
}

fn check_is_eternal_message_type(input: &str) {
    match MessageType::parse(input) {
        Some(ident) => assert_eq!(input, ident.as_str()),
        None => panic!("input {} was not recognized as message type", input),
    };
    //eternal message types are also valid client IDs and plain identifiers...
    match ClientID::parse(input) {
        Some(ident) => assert_eq!(input, ident.as_str()),
        None => panic!("input {} was not recognized as client ID", input),
    };
    match Identifier::parse(input) {
        Some(ident) => assert_eq!(input, ident.as_str()),
        None => panic!("input {} was not recognized as identifier", input),
    };
    //...but not any other sort of identifiers
    assert_eq!(ModuleIdentifier::parse(input), None);
    assert_eq!(ScopedIdentifier::parse(input), None);
    assert_eq!(ModuleVersion::parse(input), None);
}

#[test]
fn test_parsing() {
    check_is_identifier("foo");
    check_is_identifier("foo_foo");
    check_is_identifier("foo-foo");
    check_is_identifier("_foo");
    check_is_identifier("_foo_foo");
    check_is_identifier("_foo-foo");
    //identifiers can never start with a dash
    check_is_unrecognizable("-foo");
    check_is_unrecognizable("-foo_foo");
    check_is_unrecognizable("-foo-foo");
    //digits may follow the first character
    check_is_identifier("f0o");
    check_is_identifier("f0-o_");
    //other characters not allowed in an identifier
    check_is_unrecognizable("0foo");
    check_is_unrecognizable("f0o.bar");
    check_is_unrecognizable("fo=o");
    check_is_unrecognizable("what is this");

    check_is_module_identifier("foo1");
    check_is_module_identifier("foo_foo23");
    check_is_module_identifier("foo-foo4");
    check_is_module_identifier("_foo5");
    check_is_module_identifier("_foo_foo5");
    check_is_module_identifier("_foo-foo607");
    //the major version is made of all the digits at the end
    check_is_module_identifier("f0o1");
    check_is_module_identifier("a1b2");
    //major version 0 is not allowed, so these are plain identifiers
    check_is_identifier("foo0");
    check_is_identifier("foo_foo0");
    check_is_identifier("foo-foo0");
    check_is_identifier("_foo0");
    check_is_identifier("_foo_foo0");
    check_is_identifier("_foo-foo0");
    //neither are leading zeroes, nor major versions over 65535
    check_is_identifier("foo01");
    check_is_identifier("foo65536");
    //other characters not allowed in an identifier
    check_is_unrecognizable("fo.1");
    check_is_unrecognizable("fo=1");
    check_is_unrecognizable("f.o1");
    check_is_unrecognizable("f=o1");

    check_is_module_version("foo1.0");
    check_is_module_version("foo_foo23.2");
    check_is_module_version("foo-foo4.0");
    check_is_module_version("_foo5.63");
    check_is_module_version("_foo_foo5.508");
    check_is_module_version("_foo-foo607.0");
    //require minimal encoding of 0
    check_is_unrecognizable("foo1.00");
    check_is_unrecognizable("foo_foo23.000");
    check_is_unrecognizable("foo-foo4.00");
    check_is_unrecognizable("_foo5.000");
    check_is_unrecognizable("_foo_foo5.00");
    check_is_unrecognizable("_foo-foo607.000");
    //major version 0 is not allowed
    check_is_unrecognizable("foo0.0");
    check_is_unrecognizable("foo_foo0.0");
    check_is_unrecognizable("foo-foo0.0");
    check_is_unrecognizable("_foo0.0");
    check_is_unrecognizable("_foo_foo0.0");
    check_is_unrecognizable("_foo-foo0.0");
    //other characters not allowed in an identifier
    check_is_unrecognizable("fo.1.0");
    check_is_unrecognizable("fo=1.0");
    check_is_unrecognizable("f.o1.0");
    check_is_unrecognizable("f=o1.0");
    check_is_unrecognizable("foo1.0a");
    check_is_unrecognizable("foo1.-0");
    check_is_unrecognizable("foo1.0-1");
    check_is_unrecognizable("foo1.0-");

    //scoped identifiers with different types of module identifiers
    check_is_scoped_identifier("foo1.bar");
    check_is_scoped_identifier("foo_foo23.bar");
    check_is_scoped_identifier("foo-foo4.bar");
    check_is_scoped_identifier("_foo5.bar");
    check_is_scoped_identifier("_foo_foo5.bar");
    check_is_scoped_identifier("_foo-foo607.bar");
    //scoped identifiers with different types of member identifiers
    check_is_scoped_identifier("foo23.bar");
    check_is_scoped_identifier("foo23.bar_bar");
    check_is_scoped_identifier("foo23.bar-bar");
    check_is_scoped_identifier("foo23._bar");
    check_is_scoped_identifier("foo23._bar_bar");
    check_is_scoped_identifier("foo23._bar-bar");
    //missing parts
    check_is_unrecognizable(".");
    check_is_unrecognizable("foo.");
    check_is_unrecognizable("foo1.");
    check_is_unrecognizable(".foo");

    //last but not least
    check_is_eternal_message_type("init");
    check_is_eternal_message_type("want");
    check_is_eternal_message_type("have");
    check_is_eternal_message_type("nope");
}

#[test]
fn client_ids_are_letters_and_digits() {
    assert!(ClientID::parse("abc").is_some());
    assert!(ClientID::parse("123").is_some());
    assert!(ClientID::parse("A1B2").is_some());
    assert!(ClientID::parse("").is_none());
    assert!(ClientID::parse("a-b").is_none());
    assert!(ClientID::parse("core1.set").is_none());
    assert!(ClientID::parse("a\u{e9}").is_none());
}

#[test]
fn identifiers_give_their_parts() {
    let module = ModuleIdentifier::parse("core3").unwrap();
    assert_eq!(module.name().as_str(), "core");
    assert_eq!(module.major_version(), 3);
    assert_eq!(module.as_str(), "core3");

    let version = ModuleVersion::parse("core3.2").unwrap();
    assert_eq!(version.name().as_str(), "core");
    assert_eq!(version.major_version(), 3);
    assert_eq!(version.minor_version(), 2);

    let ident = ScopedIdentifier::parse("core1.set").unwrap();
    assert_eq!(ident.module().as_str(), "core1");
    assert_eq!(ident.member().as_str(), "set");

    assert_eq!(ModuleIdentifier::parse("foo65535").unwrap().major_version(), 65535);
    assert!(ModuleIdentifier::parse("foo65536").is_none());
    assert!(ModuleIdentifier::parse("foo01").is_none());
    let module = ModuleIdentifier::parse("a1b2").unwrap();
    assert_eq!(module.name().as_str(), "a1b");
    assert_eq!(module.major_version(), 2);
    let ident = ScopedIdentifier::parse("f0o12.set2").unwrap();
    assert_eq!(ident.module().name().as_str(), "f0o");
    assert_eq!(ident.module().major_version(), 12);
    assert_eq!(ident.member().as_str(), "set2");
    assert_eq!(ModuleVersion::parse("foo1.65535").unwrap().minor_version(), 65535);
    assert!(ModuleVersion::parse("foo1.65536").is_none());
}

#[test]
fn identifiers_decode_and_encode_as_they_are_written() {
    let id = ClientID::decode_argument(b"abc1").unwrap();
    assert_eq!(id.encode_to_vector(), b"abc1");
    assert!(ClientID::decode_argument(b"\xC0\xB1").is_none());
    let mt = MessageType::decode_argument(b"core1.set").unwrap();
    assert_eq!(mt.encode_to_vector(), b"core1.set");
    assert_eq!(MessageType::decode_argument(b"want"), Some(MessageType::Want));
    assert_eq!(MessageType::Want.encode_to_vector(), b"want");
    assert_eq!(MessageType::Init.as_str(), "init");
    assert_eq!(MessageType::Have.as_str(), "have");
    assert_eq!(MessageType::Nope.as_str(), "nope");
    assert!(MessageType::decode_argument(b"core").is_none());
    assert!(Identifier::decode_argument(b"core").is_some());
    assert!(ModuleIdentifier::decode_argument(b"core1").is_some());
    assert!(ModuleVersion::decode_argument(b"core1.0").is_some());
    assert!(ScopedIdentifier::decode_argument(b"core1.sub").is_some());
}
