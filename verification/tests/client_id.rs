use vt6::client::core1::ClientIDSuffix;
use vt6::client::core1::ClientIDSuffix::Child;
use vt6::client::core1::ClientIDSuffix::Job;
use vt6::client::core1::ClientIDSuffix::Local;
use vt6::client::core1::ClientIDSuffix::Own;
use vt6::common::foundation::ClientID;
use vt6::common::foundation::EncodeArgument;

#[test]
fn encode_decode_client_ids() {
    let base = ClientID::parse("foo").unwrap();
    let testcases: Vec<(ClientIDSuffix, &'static str)> = vec![
        (Own, "foo"),
        (Local(0), "foo01"),
        (Local(1), "foo02"),
        (Local(59), "foo0y"),
        (Local(60), "foo0z0"),
        (Local(61), "foo0z1"),
        (Local(120), "foo0zy"),
        (Local(121), "foo0zz0"),
        (Local(122), "foo0zz1"),
        (Job(0), "foo1"),
        (Job(1), "foo2"),
        (Job(59), "fooy"),
        (Job(60), "fooz0"),
        (Job(61), "fooz1"),
        (Job(120), "foozy"),
        (Job(121), "foozz0"),
        (Job(122), "foozz1"),
        (Child(0, 0), "foo11"),
        (Child(0, 1), "foo12"),
        (Child(0, 59), "foo1y"),
        (Child(0, 60), "foo1z0"),
        (Child(0, 61), "foo1z1"),
        (Child(0, 120), "foo1zy"),
        (Child(0, 121), "foo1zz0"),
        (Child(0, 122), "foo1zz1"),
        (Child(1, 0), "foo21"),
        (Child(1, 1), "foo22"),
        (Child(1, 59), "foo2y"),
        (Child(1, 60), "foo2z0"),
        (Child(1, 61), "foo2z1"),
        (Child(1, 120), "foo2zy"),
        (Child(1, 121), "foo2zz0"),
        (Child(1, 122), "foo2zz1"),
        (Child(61, 0), "fooz11"),
        (Child(61, 1), "fooz12"),
        (Child(61, 59), "fooz1y"),
        (Child(61, 60), "fooz1z0"),
        (Child(61, 61), "fooz1z1"),
        (Child(61, 120), "fooz1zy"),
        (Child(61, 121), "fooz1zz0"),
        (Child(61, 122), "fooz1zz1"),
    ];

    for (suffix, expected) in testcases {
        let encoded = suffix.below(base).encode_to_vector();
        assert_eq!(
            std::str::from_utf8(&encoded),
            Ok(expected),
            "suffix was: {:?}, encoded was: {:?}",
            suffix,
            encoded
        );
    }
}

#[test]
fn relative_client_ids_keep_their_parts() {
    let base = ClientID::parse("a1").unwrap();
    let relative = Job(9).below(base);
    assert_eq!(relative.base(), base);
    assert_eq!(relative.suffix(), Job(9));
    assert_eq!(relative.get_size(), 3);
    assert_eq!(relative.encode_to_vector(), b"a1A");
    assert_eq!(Job(35).below(base).encode_to_vector(), b"a1a");
    assert_eq!(Job(u32::MAX).get_size(), 1 + (1usize << 32) / 61);
    assert!(ClientID::parse(std::str::from_utf8(&Child(7, 200).below(base).encode_to_vector()).unwrap()).is_some());
}
