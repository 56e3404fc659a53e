use nv::NvDecodeErr;
use nv::NvErr;
use nv::NvFlag;
use nv::NvList;
use nv::NvListAdd;
use nv::NvListOps;
use nv::NvType;
use nv::parse;

#[test]
fn test_create_nvlist() {
    let x = NvList::new(NvFlag::All);
    let _ = x.clone();
}

#[test]
fn from_i32_maps_each_defined_value() {
    assert!(matches!(NvFlag::from_i32(0), Ok(NvFlag::NoFlags)));
    assert!(matches!(NvFlag::from_i32(1), Ok(NvFlag::IgnoreCase)));
    assert!(matches!(NvFlag::from_i32(2), Ok(NvFlag::NoUnique)));
    assert!(matches!(NvFlag::from_i32(3), Ok(NvFlag::All)));
    assert!(matches!(NvFlag::from_i32(4), Err(NvErr::ConstructionErr)));
    assert!(matches!(NvFlag::from_i32(-1), Err(NvErr::ConstructionErr)));
}

#[test]
fn new_list_is_empty_with_no_error() {
    let list = NvList::new(NvFlag::NoFlags).unwrap();
    assert!(list.is_empty());
    assert_eq!(list.error(), 0);
    assert_eq!(list.flags(), NvFlag::NoFlags);
}

#[test]
fn sentinel_reports_no_memory_and_ignores_mutation() {
    let mut list = NvList::default();
    assert_eq!(list.error(), 0xc);
    list.add_number("x", 1);
    assert_eq!(list.get_number("x"), None);
    assert!(list.is_empty());
    assert_eq!(list.flags(), NvFlag::NoFlags);
    assert_eq!(list.len(), 0);
    assert!(matches!(list.set_error(0x16), Err(NvErr::ErrorNotSet(0x16))));
}

#[test]
fn set_error_records_the_code() {
    let mut list = NvList::new(NvFlag::All).unwrap();
    list.set_error(0x16).unwrap();
    assert_eq!(0x16, list.error());
}

#[test]
fn scalar_insert_and_get_back() {
    let mut list = NvList::new(NvFlag::NoFlags).unwrap();
    list.add_null("nothing");
    list.add_bool("flag", true);
    list.add_number("answer", 42);
    list.add_string("greeting", "Hello, World!");
    list.add_descriptor("handle", 7);
    list.add_binary("blob", &[1, 2, 3]);
    assert_eq!(list.error(), 0);
    assert!(!list.is_empty());
    assert!(list.exists_name("nothing"));
    assert!(list.exists_type("nothing", NvType::Null));
    assert_eq!(list.get_bool("flag"), Some(true));
    assert_eq!(list.get_number("answer"), Some(42));
    assert_eq!(list.get_string("greeting").unwrap(), "Hello, World!");
    assert_eq!(list.get_descriptor("handle"), Some(7));
}

#[test]
fn array_insert_and_get_back() {
    let mut list = NvList::new(NvFlag::NoFlags).unwrap();
    list.add_bool_slice("bits", &[true, false, true]);
    list.add_number_slice("nums", &[1, 2, 3, 4, 5]);
    list.add_string_slice("words", &["Hello", "World!"]);
    list.add_descriptor_slice("handles", &[9, 8]);
    assert_eq!(list.error(), 0);
    assert_eq!(list.get_bool_slice("bits").unwrap(), vec![true, false, true]);
    assert_eq!(list.get_number_slice("nums").unwrap(), vec![1, 2, 3, 4, 5]);
    assert_eq!(list.get_string_vec("words").unwrap(), vec!["Hello", "World!"]);
    assert_eq!(list.get_descriptor_slice("handles").unwrap(), vec![9, 8]);
}

#[test]
fn nested_list_is_cloned_on_insert() {
    let mut inner = NvList::new(NvFlag::NoFlags).unwrap();
    inner.add_number("the answer", 42);
    let mut list = NvList::new(NvFlag::All).unwrap();
    list.add_nvlist("other list", &inner);
    // Mutating the caller's list after insertion must not reach the stored copy.
    inner.add_number("later", 1);
    let stored = list.get_nvlist("other list").unwrap();
    assert_eq!(stored.get_number("the answer"), Some(42));
    assert!(!stored.exists_name("later"));
}

#[test]
fn invalid_nested_list_becomes_fresh_empty_child() {
    let mut list = NvList::new(NvFlag::All).unwrap();
    let other_list = NvList::default();
    list.add_nvlist("other list", &other_list);
    let stored = list.get_nvlist("other list").unwrap();
    assert!(stored.is_empty());
    assert_eq!(stored.error(), 0);
    assert_eq!(stored.flags(), NvFlag::All);
    assert_eq!(other_list.get_bool("something"), None);
}

#[test]
fn nvlist_slice_drops_invalid_children() {
    let mut list = NvList::new(NvFlag::NoFlags).unwrap();
    let slice = [NvList::default(), NvList::new(NvFlag::NoFlags).unwrap()];
    list.add_nvlist_slice("unoriginal", &slice);
    let vec = list.get_nvlist_vec("unoriginal").unwrap();
    assert_eq!(vec.len(), 1);
    assert_eq!(vec[0].flags(), NvFlag::NoFlags);
}

#[test]
fn nvlist_slice_keeps_order_of_valid_children() {
    let mut list = NvList::new(NvFlag::All).unwrap();
    let slice = [
        NvList::default(),
        NvList::new(NvFlag::All).unwrap(),
        NvList::new(NvFlag::NoFlags).unwrap(),
    ];
    list.add_nvlist_slice("nvlists", &slice);
    let mut nvlists = list.get_nvlist_vec("nvlists").unwrap();
    assert_eq!(nvlists.len(), 2);
    assert_eq!(NvFlag::NoFlags, nvlists.pop().unwrap().flags());
    assert_eq!(NvFlag::All, nvlists.pop().unwrap().flags());
}

#[test]
fn duplicate_name_rejected_without_flag() {
    let mut list = NvList::new(NvFlag::NoFlags).unwrap();
    list.add_number("key", 1);
    assert_eq!(list.error(), 0);
    list.add_number("key", 2);
    assert_eq!(list.error(), 17);
    // The first entry is intact and the count unchanged.
    assert_eq!(list.get_number("key"), Some(1));
    let bytes = {
        let mut fresh = NvList::new(NvFlag::NoFlags).unwrap();
        fresh.add_number("key", 1);
        fresh.dump()
    };
    // An insert rejected as a duplicate adds nothing: the encoded form is
    // that of the single-entry list.
    let reparsed = parse(&bytes).unwrap();
    assert_eq!(reparsed.get_number("key"), Some(1));
}

#[test]
fn duplicates_keep_first_match_semantics() {
    let mut list = NvList::new(NvFlag::All).unwrap();
    list.add_bool("is rust awesome?", true);
    list.add_bool("is rust awesome?", false);
    assert_eq!(list.error(), 0);
    assert_eq!(list.get_bool("is rust awesome?"), Some(true));
}

#[test]
fn case_folding_only_with_flag() {
    let mut ci = NvList::new(NvFlag::IgnoreCase).unwrap();
    ci.add_number("Key", 1);
    assert!(ci.exists_name("key"));
    assert!(ci.exists_name("KEY"));
    assert_eq!(ci.get_number("kEy"), Some(1));

    let mut cs = NvList::new(NvFlag::NoFlags).unwrap();
    cs.add_number("Key", 1);
    assert!(!cs.exists_name("key"));
    assert!(cs.exists_name("Key"));
}

#[test]
fn typed_getter_never_reads_other_tag() {
    let mut list = NvList::new(NvFlag::NoFlags).unwrap();
    list.add_string("x", "hi");
    assert_eq!(list.get_number("x"), None);
    assert!(!list.exists_type("x", NvType::Number));
    assert!(list.exists_type("x", NvType::String));
}

#[test]
fn name_length_boundary() {
    let just_fits = "a".repeat(2048);
    let too_long = "a".repeat(2049);
    let mut list = NvList::new(NvFlag::NoFlags).unwrap();
    list.add_number(&just_fits, 1);
    assert_eq!(list.error(), 0);
    assert_eq!(list.get_number(&just_fits), Some(1));
    list.add_number(&too_long, 2);
    assert_eq!(list.error(), 63);
    assert_eq!(list.get_number(&too_long), None);
    // The failed insert added nothing.
    assert_eq!(list.get_number(&just_fits), Some(1));
}

#[test]
fn sticky_error_blocks_later_mutation() {
    let mut list = NvList::new(NvFlag::NoFlags).unwrap();
    list.add_number("a", 1);
    list.add_number("a", 2);
    assert_eq!(list.error(), 17);
    list.add_number("b", 3);
    assert_eq!(list.get_number("b"), None);
    assert_eq!(list.error(), 17);
}

#[test]
fn free_removes_first_match_only() {
    let mut list = NvList::new(NvFlag::All).unwrap();
    list.add_number("k", 1);
    list.add_number("k", 2);
    list.free("k");
    assert_eq!(list.get_number("k"), Some(2));
    list.free("missing");
    assert_eq!(list.get_number("k"), Some(2));
    list.free("k");
    assert!(list.is_empty());
}

#[test]
fn free_type_respects_the_tag() {
    let mut list = NvList::new(NvFlag::All).unwrap();
    list.add_string("k", "text");
    list.add_number("k", 2);
    list.free_type("k", NvType::Number);
    assert_eq!(list.get_number("k"), None);
    assert_eq!(list.get_string("k").unwrap(), "text");
    list.free_type("k", NvType::Bool);
    assert_eq!(list.get_string("k").unwrap(), "text");
}

#[test]
fn generic_add_dispatches_on_type() {
    let mut list = NvList::new(NvFlag::All).unwrap();
    let the_answer: u64 = 42;
    let not_the_answer: Option<u64> = None;
    list.add("the answer", the_answer);
    list.add("not the answer", not_the_answer);
    list.add("truth", true);
    list.add("some truth", Some(false));
    let copy = list.clone();
    list.add("how very meta of you", copy);
    assert_eq!(list.get_number("the answer").unwrap(), 42);
    assert!(list.exists_type("not the answer", NvType::Null));
    assert_eq!(list.get_bool("truth"), Some(true));
    assert_eq!(list.get_bool("some truth"), Some(false));
    let meta = list.get_nvlist("how very meta of you").unwrap();
    assert_eq!(meta.get_number("the answer"), Some(42));
}

#[test]
fn nv_add_through_both_traits() {
    let mut list = NvList::new(NvFlag::NoFlags).unwrap();
    NvListOps::nv_add("greeting", &mut list, "ops");
    NvListAdd::nv_add("greeting", &mut list, "add");
    assert_eq!(list.get_string("ops").unwrap(), "greeting");
    assert_eq!(list.get_string("add").unwrap(), "greeting");
}

#[test]
fn deep_clone_is_independent() {
    let mut inner = NvList::new(NvFlag::NoFlags).unwrap();
    inner.add_number("n", 5);
    let mut list = NvList::new(NvFlag::NoFlags).unwrap();
    list.add_nvlist("child", &inner);
    list.add_number_slice("arr", &[1, 2, 3]);
    let snapshot = list.clone();
    // Mutate the original: the clone's values must not move.
    list.free("child");
    list.free("arr");
    list.add_number_slice("arr", &[9]);
    assert_eq!(snapshot.get_number_slice("arr").unwrap(), vec![1, 2, 3]);
    let child = snapshot.get_nvlist("child").unwrap();
    assert_eq!(child.get_number("n"), Some(5));
    assert_eq!(list.get_number_slice("arr").unwrap(), vec![9]);
}

#[test]
fn end_to_end_dump_and_parse() {
    let mut list = NvList::new(NvFlag::NoUnique).unwrap();
    list.add_number("answer", 42);
    list.add_null("nothing");
    let bytes = list.dump();
    let parsed = parse(&bytes).unwrap();
    assert_eq!(parsed.get_number("answer"), Some(42));
    assert!(parsed.exists_type("nothing", NvType::Null));
    assert_eq!(parsed.error(), 0);
    assert_eq!(parsed.flags(), NvFlag::NoUnique);
}

#[test]
fn round_trip_preserves_every_kind_and_order() {
    let mut inner = NvList::new(NvFlag::IgnoreCase).unwrap();
    inner.add_string("greeting", "Hello, World!");
    let mut list = NvList::new(NvFlag::NoFlags).unwrap();
    list.add_null("a");
    list.add_bool("b", true);
    list.add_number("c", u64::MAX);
    list.add_string("d", "text with unicode: \u{00e9}\u{4e16}\u{754c}");
    list.add_nvlist("e", &inner);
    list.add_descriptor("f", 3);
    list.add_binary("g", &[0, 255, 7]);
    list.add_bool_slice("h", &[false, true]);
    list.add_number_slice("i", &[10, 20, 30]);
    list.add_string_slice("j", &["one", "two"]);
    list.add_nvlist_slice("k", &[inner.clone()]);
    list.add_descriptor_slice("l", &[4, 5]);
    assert_eq!(list.error(), 0);

    let bytes = list.dump();
    assert_eq!(list.len() as usize, bytes.len());
    let parsed = parse(&bytes).unwrap();

    assert!(parsed.exists_type("a", NvType::Null));
    assert_eq!(parsed.get_bool("b"), Some(true));
    assert_eq!(parsed.get_number("c"), Some(u64::MAX));
    assert_eq!(
        parsed.get_string("d").unwrap(),
        "text with unicode: \u{00e9}\u{4e16}\u{754c}"
    );
    let e = parsed.get_nvlist("e").unwrap();
    assert_eq!(e.flags(), NvFlag::IgnoreCase);
    assert_eq!(e.get_string("GREETING").unwrap(), "Hello, World!");
    assert_eq!(parsed.get_descriptor("f"), Some(3));
    assert_eq!(parsed.get_number_slice("i").unwrap(), vec![10, 20, 30]);
    assert_eq!(parsed.get_bool_slice("h").unwrap(), vec![false, true]);
    assert_eq!(parsed.get_string_vec("j").unwrap(), vec!["one", "two"]);
    let k = parsed.get_nvlist_vec("k").unwrap();
    assert_eq!(k.len(), 1);
    assert_eq!(k[0].get_string("greeting").unwrap(), "Hello, World!");
    assert_eq!(parsed.get_descriptor_slice("l").unwrap(), vec![4, 5]);

    // A second dump of the parsed list reproduces the same bytes.
    assert_eq!(parsed.dump(), bytes);
}

#[test]
fn empty_list_round_trips() {
    let list = NvList::new(NvFlag::IgnoreCase).unwrap();
    let bytes = list.dump();
    assert_eq!(bytes.len(), 2);
    let parsed = parse(&bytes).unwrap();
    assert!(parsed.is_empty());
    assert_eq!(parsed.flags(), NvFlag::IgnoreCase);
}

#[test]
fn round_trip_resets_sticky_error() {
    let mut list = NvList::new(NvFlag::NoFlags).unwrap();
    list.add_number("a", 1);
    list.set_error(0x16).unwrap();
    let bytes = list.dump();
    let parsed = parse(&bytes).unwrap();
    assert_eq!(parsed.error(), 0);
    assert_eq!(parsed.get_number("a"), Some(1));
}

#[test]
fn parse_rejects_corrupt_input() {
    // Empty input: no flags byte at all.
    assert!(matches!(parse(&[]), Err(NvDecodeErr::Corrupt)));
    // Unknown flags code.
    assert!(matches!(parse(&[9, 0]), Err(NvDecodeErr::Corrupt)));
    // Missing end marker.
    assert!(matches!(parse(&[0]), Err(NvDecodeErr::Corrupt)));
    // Unknown record tag.
    assert!(matches!(parse(&[0, 99, 0, 0, 0]), Err(NvDecodeErr::Corrupt)));
    // Trailing bytes after the end marker.
    assert!(matches!(parse(&[0, 0, 5]), Err(NvDecodeErr::Corrupt)));
}

#[test]
fn parse_rejects_oversized_length_fields() {
    // A record whose name length claims more bytes than the input holds.
    let input = [0u8, 3, 255, 7, 0];
    assert!(matches!(parse(&input), Err(NvDecodeErr::MalformedLength)));
    // A binary payload that claims a huge length cannot force a huge
    // allocation: it is rejected against the remaining input size.
    let mut bin = vec![0u8, 7, 1, 0, b'g'];
    bin.extend_from_slice(&u64::MAX.to_le_bytes());
    bin.push(0);
    assert!(matches!(parse(&bin), Err(NvDecodeErr::MalformedLength)));
}

#[test]
fn parse_rejects_ill_encoded_name() {
    // Tag number, name of one byte that is not valid UTF-8, payload, marker.
    let input = [0u8, 3, 1, 0, 0xFF, 1, 0, 0, 0, 0, 0, 0, 0, 0];
    assert!(matches!(parse(&input), Err(NvDecodeErr::Corrupt)));
}

#[test]
fn len_measures_encoded_size() {
    let mut list = NvList::new(NvFlag::NoFlags).unwrap();
    assert_eq!(list.len(), 2);
    list.add_null("ab");
    // One record: tag, two-byte name length, two name bytes; plus the
    // list's flags byte and end marker.
    assert_eq!(list.len() as usize, list.dump().len());
    assert_eq!(list.len(), 2 + 1 + 2 + 2);
}

#[test]
fn name_bound_counts_bytes_not_characters() {
    // A two-byte character: 1024 of them fill the bound exactly, 1025
    // overrun it even though the character count stays below it.
    let two_byte = "\u{00e9}";
    let just_fits = two_byte.repeat(1024);
    let too_long = two_byte.repeat(1025);
    let mut list = NvList::new(NvFlag::NoFlags).unwrap();
    list.add_bool(&just_fits, true);
    assert_eq!(list.error(), 0);
    list.add_bool(&too_long, true);
    assert_eq!(list.error(), 63);
    assert_eq!(list.get_bool(&just_fits), Some(true));
    assert_eq!(list.get_bool(&too_long), None);
}

#[test]
fn parse_rejects_ill_encoded_bool_array_element() {
    // Flags, tag bool-array, one-byte name "g", count 1, element byte 2.
    let mut input = vec![0u8, 8, 1, 0, b'g'];
    input.extend_from_slice(&1u64.to_le_bytes());
    input.push(2);
    input.push(0);
    assert!(matches!(parse(&input), Err(NvDecodeErr::Corrupt)));
}

#[test]
fn deeply_nested_lists_round_trip() {
    let mut level3 = NvList::new(NvFlag::NoFlags).unwrap();
    level3.add_string("depth", "three");
    let mut level2 = NvList::new(NvFlag::IgnoreCase).unwrap();
    level2.add_nvlist("inner", &level3);
    let mut level1 = NvList::new(NvFlag::NoUnique).unwrap();
    level1.add_nvlist("inner", &level2);
    let parsed = parse(&level1.dump()).unwrap();
    let two = parsed.get_nvlist("inner").unwrap();
    assert_eq!(two.flags(), NvFlag::IgnoreCase);
    let three = two.get_nvlist("INNER").unwrap();
    assert_eq!(three.get_string("depth").unwrap(), "three");
}

#[test]
fn exists_type_distinguishes_array_tags() {
    let mut list = NvList::new(NvFlag::NoFlags).unwrap();
    list.add_number_slice("a", &[1]);
    assert!(list.exists_type("a", NvType::NumberArray));
    assert!(!list.exists_type("a", NvType::Number));
    assert!(!list.exists_type("a", NvType::DescriptorArray));
}
