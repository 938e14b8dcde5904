use keyz::CalendarDate;
use keyz::Key;
use keyz::Timestamp;
use keyz::ToKey;

#[test]
fn test_make_key() {
    // &str and String -> Key
    let key = Key::build(vec!["hello".to_key(), String::from("world").to_key()]);
    let expected: Vec<u8> = Vec::from("helloworld".as_bytes());
    assert_eq!(key, Key(expected));

    // date -> Key
    let date = CalendarDate::new(2016, 11, 8).unwrap();
    let key2 = Key::build(vec![date.to_key(), "hello".to_key()]);
    let midnight = Timestamp::new(2016, 11, 8, 0, 0, 0).unwrap();
    let expected2 = Key::build(vec![midnight.to_key(), "hello".to_key()]);
    assert_eq!(key2, expected2);
}
