use angelfish::mapper::SppMapper;

#[test]
fn test_mapper() {
    let mut mapper = SppMapper::new();
    ["hi", "hello"].iter().for_each(|e| mapper.define_string_id(e));
    let hello = mapper.string_to_integer("hello");
    let hi = mapper.string_to_integer("hi");
    assert_eq!(hello, mapper.string_to_integer("hello"));
    assert_ne!(hi, mapper.string_to_integer("hello"));
    assert_ne!(hello, mapper.string_to_integer("hi"));
    assert_eq!(None, mapper.string_to_integer("not-found"));
    assert_eq!("hello", mapper.integer_to_string(hello.unwrap()).unwrap());
    assert_eq!("hi", mapper.integer_to_string(hi.unwrap()).unwrap());
}

#[test]
fn ids_count_up_from_one() {
    let mut mapper = SppMapper::new();
    assert_eq!(mapper.integer_to_string(0), None);
    mapper.define_string_id("a");
    mapper.define_string_id("b");
    assert_eq!(mapper.string_to_integer("a"), Some(1));
    assert_eq!(mapper.string_to_integer("b"), Some(2));
    assert_eq!(mapper.integer_to_string(3), None);
}

#[test]
fn redefining_moves_the_string_to_a_new_id() {
    let mut mapper = SppMapper::new();
    mapper.define_string_id("a");
    mapper.define_string_id("b");
    mapper.define_string_id("a");
    assert_eq!(mapper.string_to_integer("a"), Some(3));
    assert_eq!(mapper.integer_to_string(1), None);
    assert_eq!(mapper.integer_to_string(3), Some("a"));
    assert_eq!(mapper.string_to_integer("b"), Some(2));
}
