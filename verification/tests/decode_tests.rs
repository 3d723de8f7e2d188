use geekytray::arg_type::ArgType;
use geekytray::message::Message;
use geekytray::reader::Error;
use geekytray::reader::Reader;
use geekytray::signature::Signature;
use geekytray::values::Any;
use geekytray::values::DictEntry;
use geekytray::values::DoubleBits;
use geekytray::values::ObjectPath;
use geekytray::values::UnixFd;
use geekytray::values::Variant;

fn sig(s: &str) -> Signature {
    Signature::parse(&s.as_bytes().to_vec()).unwrap()
}

fn msg(s: &str, body: Vec<u8>) -> Message {
    Message::new(body, sig(s))
}

fn push_u32(out: &mut Vec<u8>, v: u32) {
    out.extend_from_slice(&v.to_le_bytes());
}

fn push_str(out: &mut Vec<u8>, s: &str) {
    push_u32(out, s.len() as u32);
    out.extend_from_slice(s.as_bytes());
    out.push(0);
}

fn push_sig(out: &mut Vec<u8>, s: &str) {
    out.push(s.len() as u8);
    out.extend_from_slice(s.as_bytes());
    out.push(0);
}

#[test]
fn struct_decodes_as_pair_and_terminates() {
    // One struct argument holding an Int32 and a String.
    let mut body = Vec::new();
    push_u32(&mut body, 42);
    push_str(&mut body, "ok");
    let m = msg("(is)", body);
    let mut r = Reader::from_message(&m);
    let (n, s): (i32, String) = r.consume().unwrap();
    assert_eq!(n, 42);
    assert_eq!(s, "ok");
    assert!(!r.has_next());

    // The same decode by hand, with terminated() on the sub-reader.
    let r2 = Reader::from_message(&m);
    let mut sub = r2.recurse();
    let n2: i32 = sub.consume().unwrap();
    let s2: String = sub.consume().unwrap();
    assert_eq!((n2, s2.as_str()), (42, "ok"));
    assert!(sub.terminated().is_ok());
}

#[test]
fn array_decodes_in_order_and_as_any() {
    let mut body = Vec::new();
    push_u32(&mut body, 12);
    push_u32(&mut body, 1);
    push_u32(&mut body, 2);
    push_u32(&mut body, 3);
    let m = msg("ai", body);
    let mut r = Reader::from_message(&m);
    let v: Vec<i32> = r.consume().unwrap();
    assert_eq!(v, vec![1, 2, 3]);

    let mut r2 = Reader::from_message(&m);
    match r2.consume::<Any>().unwrap() {
        Any::Array(elems, elem_t) => {
            assert_eq!(elems, vec![Any::Int32(1), Any::Int32(2), Any::Int32(3)]);
            assert_eq!(Signature::single(elem_t).to_string(), "i");
        }
        other => panic!("unexpected value {:?}", other),
    }
}

#[test]
fn empty_array_decodes_empty() {
    let mut body = Vec::new();
    push_u32(&mut body, 0);
    let m = msg("as", body);
    let mut r = Reader::from_message(&m);
    let v: Vec<String> = r.consume().unwrap();
    assert!(v.is_empty());
}

#[test]
fn smaller_arity_fails_with_trailing_type() {
    let mut body = Vec::new();
    push_u32(&mut body, 1);
    push_u32(&mut body, 2);
    push_u32(&mut body, 3);
    let m = msg("(iii)", body);
    let mut r = Reader::from_message(&m);
    match r.consume::<(i32, i32)>() {
        Err(Error::TrailingType { actual }) => {
            assert_eq!(actual.unwrap().to_string(), "i");
        }
        other => panic!("unexpected result {:?}", other),
    }
}

#[test]
fn matching_arity_succeeds_then_terminated() {
    let mut body = Vec::new();
    for i in 0..3 {
        push_u32(&mut body, i);
    }
    let m = msg("(uuu)", body);
    let mut r = Reader::from_message(&m);
    let t: (u32, u32, u32) = r.consume().unwrap();
    assert_eq!(t, (0, 1, 2));
    assert!(r.terminated().is_ok());
}

#[test]
fn nine_member_struct_decodes() {
    let mut body = Vec::new();
    for i in 0..9 {
        push_u32(&mut body, i);
    }
    let m = msg("(uuuuuuuuu)", body);
    let mut r = Reader::from_message(&m);
    let t: (u32, u32, u32, u32, u32, u32, u32, u32, u32) = r.consume().unwrap();
    assert_eq!(t, (0, 1, 2, 3, 4, 5, 6, 7, 8));
}

#[test]
fn variant_matching_inner_type() {
    let mut body = Vec::new();
    push_sig(&mut body, "i");
    push_u32(&mut body, 7);
    let m = msg("v", body);
    let mut r = Reader::from_message(&m);
    let v: Variant<i32> = r.consume().unwrap();
    assert_eq!(v.0, 7);
}

#[test]
fn variant_mismatched_inner_type() {
    let mut body = Vec::new();
    push_sig(&mut body, "i");
    push_u32(&mut body, 7);
    let m = msg("v", body);
    let mut r = Reader::from_message(&m);
    match r.consume::<Variant<String>>() {
        Err(Error::UnexpectedType { expected, actual }) => {
            assert_eq!(expected.to_string(), "s");
            assert_eq!(actual.unwrap().to_string(), "i");
        }
        other => panic!("unexpected result {:?}", other),
    }
}

#[test]
fn variant_with_malformed_signature() {
    let mut body = Vec::new();
    push_sig(&mut body, "(");
    push_u32(&mut body, 7);
    let m = msg("v", body);
    let mut r = Reader::from_message(&m);
    match r.consume::<Variant<i32>>() {
        Err(Error::MalformedSignature) => {}
        other => panic!("unexpected result {:?}", other),
    }
}

#[test]
fn invalid_utf8_fails_with_text_error() {
    let mut body = Vec::new();
    push_u32(&mut body, 2);
    body.push(0xff);
    body.push(0xfe);
    body.push(0);
    let m = msg("s", body);
    let mut r = Reader::from_message(&m);
    match r.consume::<String>() {
        Err(Error::Utf8Error) => {}
        other => panic!("unexpected result {:?}", other),
    }
    // Dynamic decode of the same payload fails as well, and never panics.
    let mut r2 = Reader::from_message(&m);
    assert!(r2.consume::<Any>().is_err());
}

#[test]
fn unit_accepts_only_empty_struct() {
    let m = msg("()", Vec::new());
    let mut r = Reader::from_message(&m);
    r.consume::<()>().unwrap();

    let mut body = Vec::new();
    push_u32(&mut body, 5);
    let m2 = msg("(i)", body);
    let mut r2 = Reader::from_message(&m2);
    match r2.consume::<()>() {
        Err(Error::TrailingType { .. }) => {}
        other => panic!("unexpected result {:?}", other),
    }
}

#[test]
fn basic_values_decode() {
    let mut body = Vec::new();
    body.push(9); // y
    push_u32(&mut body, 1); // b
    body.extend_from_slice(&(-5i16).to_le_bytes()); // n
    body.extend_from_slice(&40000u16.to_le_bytes()); // q
    body.extend_from_slice(&(-70000i32).to_le_bytes()); // i
    push_u32(&mut body, 3_000_000_000); // u
    body.extend_from_slice(&(-5_000_000_000i64).to_le_bytes()); // x
    body.extend_from_slice(&(10u64.pow(19)).to_le_bytes()); // t
    let m = msg("ybnqiuxt", body);
    let mut r = Reader::from_message(&m);
    assert_eq!(r.consume::<u8>().unwrap(), 9);
    assert_eq!(r.consume::<bool>().unwrap(), true);
    assert_eq!(r.consume::<i16>().unwrap(), -5);
    assert_eq!(r.consume::<u16>().unwrap(), 40000);
    assert_eq!(r.consume::<i32>().unwrap(), -70000);
    assert_eq!(r.consume::<u32>().unwrap(), 3_000_000_000);
    assert_eq!(r.consume::<i64>().unwrap(), -5_000_000_000);
    assert_eq!(r.consume::<u64>().unwrap(), 10u64.pow(19));
    assert!(!r.has_next());
}

#[test]
fn double_bits_and_unix_fd_decode() {
    let x = 2.5f64;
    let mut body = Vec::new();
    body.extend_from_slice(&x.to_bits().to_le_bytes());
    push_u32(&mut body, 4);
    let m = msg("dh", body);
    let mut r = Reader::from_message(&m);
    let bits: DoubleBits = r.consume().unwrap();
    assert_eq!(f64::from_bits(bits.0), 2.5);
    let fd: UnixFd = r.consume().unwrap();
    assert_eq!(fd.0, 4);
}

#[test]
fn object_path_and_signature_values_decode() {
    let mut body = Vec::new();
    push_str(&mut body, "/org/example/Tray");
    push_sig(&mut body, "a{sv}");
    let m = msg("og", body);
    let mut r = Reader::from_message(&m);
    let p: ObjectPath = r.consume().unwrap();
    assert_eq!(p.0, "/org/example/Tray");
    let s: Signature = r.consume().unwrap();
    assert_eq!(s.to_string(), "a{sv}");
}

#[test]
fn arg_type_value_decodes_from_byte() {
    let m = msg("y", vec![b'i']);
    let mut r = Reader::from_message(&m);
    assert_eq!(r.consume::<ArgType>().unwrap(), ArgType::Int32);
}

#[test]
fn dict_entry_decodes() {
    let mut body = Vec::new();
    push_str(&mut body, "count");
    push_u32(&mut body, 3);
    let m = msg("{su}", body);
    let mut r = Reader::from_message(&m);
    let e: DictEntry<String, u32> = r.consume().unwrap();
    assert_eq!(e.0, "count");
    assert_eq!(e.1, 3);
}

#[test]
fn peek_does_not_advance_but_consume_does() {
    let mut body = Vec::new();
    push_u32(&mut body, 5);
    push_u32(&mut body, 6);
    let m = msg("ii", body);
    let mut r = Reader::from_message(&m);
    assert_eq!(r.peek::<i32>().unwrap(), 5);
    assert_eq!(r.peek::<i32>().unwrap(), 5);
    assert_eq!(r.consume::<i32>().unwrap(), 5);
    assert_eq!(r.consume::<i32>().unwrap(), 6);
    assert!(!r.has_next());
}

#[test]
fn failed_consume_still_advances() {
    let mut body = Vec::new();
    push_u32(&mut body, 5);
    push_u32(&mut body, 6);
    let m = msg("ii", body);
    let mut r = Reader::from_message(&m);
    assert!(r.consume::<String>().is_err());
    // The failed consume advanced past the first argument.
    assert_eq!(r.consume::<i32>().unwrap(), 6);
    assert!(!r.has_next());
}

#[test]
fn unexpected_type_reports_signatures() {
    let mut body = Vec::new();
    push_u32(&mut body, 5);
    let m = msg("i", body);
    let r = Reader::from_message(&m);
    match r.peek::<String>() {
        Err(Error::UnexpectedType { expected, actual }) => {
            assert_eq!(expected.to_string(), "s");
            assert_eq!(actual.unwrap().to_string(), "i");
        }
        other => panic!("unexpected result {:?}", other),
    }
    // At end of sequence a typed target reports the exhausted level with
    // its expected signature; the dynamic target reports the sentinel.
    let mut r2 = Reader::from_message(&m);
    let _ = r2.consume::<i32>().unwrap();
    match r2.peek::<i32>() {
        Err(Error::UnexpectedEnd { expected }) => assert_eq!(expected.to_string(), "i"),
        other => panic!("unexpected result {:?}", other),
    }
    match r2.consume::<Any>() {
        Err(Error::InvalidType) => {}
        other => panic!("unexpected result {:?}", other),
    }
}

#[test]
fn truncated_data_fails_with_unexpected_end() {
    let m = msg("i", vec![1, 2]);
    let r = Reader::from_message(&m);
    match r.peek::<i32>() {
        Err(Error::UnexpectedEnd { expected }) => {
            assert_eq!(expected.to_string(), "i");
        }
        other => panic!("unexpected result {:?}", other),
    }
}

#[test]
fn child_reader_leaves_parent_in_place() {
    let mut body = Vec::new();
    push_u32(&mut body, 4);
    push_u32(&mut body, 1); // one element
    push_str(&mut body, "after");
    let m = msg("aus", body);
    let mut r = Reader::from_message(&m);
    assert_eq!(r.arg_type(), ArgType::Array);
    assert_eq!(r.element_type(), ArgType::Uint32);
    let mut child = r.recurse();
    assert_eq!(child.consume::<u32>().unwrap(), 1);
    assert!(!child.has_next());
    // The parent is still positioned on the array; it advances on its own.
    assert_eq!(r.arg_type(), ArgType::Array);
    let _: Vec<u32> = r.consume().unwrap();
    assert_eq!(r.consume::<String>().unwrap(), "after");
}

#[test]
fn remaining_signature_tracks_position() {
    let mut body = Vec::new();
    push_u32(&mut body, 5);
    push_str(&mut body, "x");
    let m = msg("is", body);
    let mut r = Reader::from_message(&m);
    assert_eq!(r.signature().unwrap().to_string(), "is");
    let _: i32 = r.consume().unwrap();
    assert_eq!(r.signature().unwrap().to_string(), "s");
    let _: String = r.consume().unwrap();
    assert!(r.signature().is_none());
    assert_eq!(r.arg_type(), ArgType::Invalid);
}

#[test]
fn next_any_yields_each_argument() {
    let mut body = Vec::new();
    push_u32(&mut body, 5);
    push_str(&mut body, "hey");
    push_u32(&mut body, 0); // boolean false
    let m = msg("isb", body);
    let mut r = Reader::from_message(&m);
    assert_eq!(r.next_any(), Some(Any::Int32(5)));
    assert_eq!(r.next_any(), Some(Any::String("hey".to_string())));
    assert_eq!(r.next_any(), Some(Any::Boolean(false)));
    assert_eq!(r.next_any(), None);
    assert_eq!(r.next_any(), None);
}

#[test]
fn nested_containers_decode_as_any() {
    // One argument: an array of structs of (Int32, String).
    let mut elem1 = Vec::new();
    push_u32(&mut elem1, 1);
    push_str(&mut elem1, "a");
    let mut elem2 = Vec::new();
    push_u32(&mut elem2, 2);
    push_str(&mut elem2, "b");
    let mut body = Vec::new();
    push_u32(&mut body, (elem1.len() + elem2.len()) as u32);
    body.extend_from_slice(&elem1);
    body.extend_from_slice(&elem2);
    let m = msg("a(is)", body);
    let mut r = Reader::from_message(&m);
    match r.consume::<Any>().unwrap() {
        Any::Array(elems, _) => {
            assert_eq!(elems.len(), 2);
            assert_eq!(
                elems[0],
                Any::Struct(vec![Any::Int32(1), Any::String("a".to_string())])
            );
            assert_eq!(
                elems[1],
                Any::Struct(vec![Any::Int32(2), Any::String("b".to_string())])
            );
        }
        other => panic!("unexpected value {:?}", other),
    }
}

#[test]
fn array_extent_mismatch_fails() {
    // The array claims 6 bytes of element data, but Int32 elements fill it
    // only in multiples of 4.
    let mut body = Vec::new();
    push_u32(&mut body, 6);
    push_u32(&mut body, 1);
    body.extend_from_slice(&[0, 0]);
    let m = msg("ai", body);
    let mut r = Reader::from_message(&m);
    assert!(r.consume::<Vec<i32>>().is_err());
}

#[test]
fn variant_as_any_wraps_inner_value() {
    let mut body = Vec::new();
    push_sig(&mut body, "s");
    push_str(&mut body, "inner");
    let m = msg("v", body);
    let mut r = Reader::from_message(&m);
    assert_eq!(
        r.consume::<Any>().unwrap(),
        Any::Variant(Box::new(Any::String("inner".to_string())))
    );
}

#[test]
fn get_basic_reads_checked_position() {
    let mut body = Vec::new();
    push_u32(&mut body, 123);
    let m = msg("u", body);
    let r = Reader::from_message(&m);
    assert!(r.arg_type().is_basic());
    let v: u32 = r.get_basic();
    assert_eq!(v, 123);
    // The cursor did not move.
    assert_eq!(r.arg_type(), ArgType::Uint32);
}

#[test]
fn boolean_word_any_nonzero_is_true() {
    let mut body = Vec::new();
    push_u32(&mut body, 2);
    push_u32(&mut body, 0);
    let m = msg("bb", body);
    let mut r = Reader::from_message(&m);
    assert_eq!(r.consume::<bool>().unwrap(), true);
    assert_eq!(r.consume::<bool>().unwrap(), false);
}

#[test]
fn array_of_empty_structs_only_when_extent_is_empty() {
    // Zero-size elements cannot fill a non-empty extent.
    let mut body = Vec::new();
    push_u32(&mut body, 0);
    let m = msg("a()", body);
    let mut r = Reader::from_message(&m);
    let v: Vec<()> = r.consume().unwrap();
    assert!(v.is_empty());

    let mut body2 = Vec::new();
    push_u32(&mut body2, 8);
    body2.extend_from_slice(&[0u8; 8]);
    let m2 = msg("a()", body2);
    let mut r2 = Reader::from_message(&m2);
    assert!(r2.consume::<Vec<()>>().is_err());
}

#[test]
fn string_frame_without_terminator_fails() {
    let mut body = Vec::new();
    push_u32(&mut body, 2);
    body.push(b'h');
    body.push(b'i');
    body.push(7); // not a NUL
    let m = msg("s", body);
    let mut r = Reader::from_message(&m);
    match r.consume::<String>() {
        Err(Error::UnexpectedEnd { .. }) => {}
        other => panic!("unexpected result {:?}", other),
    }
}

#[test]
fn malformed_signature_value_is_reported() {
    let mut body = Vec::new();
    push_sig(&mut body, "a");
    let m = msg("g", body);
    let mut r = Reader::from_message(&m);
    match r.consume::<Signature>() {
        Err(Error::MalformedSignature) => {}
        other => panic!("unexpected result {:?}", other),
    }
}


#[test]
fn too_few_members_fails_with_unexpected_end() {
    // A struct of one member decoded as a pair: the level is exhausted
    // before the second component could be read.
    let mut body = Vec::new();
    push_u32(&mut body, 7);
    let m = msg("(i)", body);
    let mut r = Reader::from_message(&m);
    match r.consume::<(i32, String)>() {
        Err(Error::UnexpectedEnd { expected }) => {
            assert_eq!(expected.to_string(), "s");
        }
        other => panic!("unexpected result {:?}", other),
    }
}

#[test]
fn trailing_type_carries_unread_members() {
    let mut body = Vec::new();
    push_u32(&mut body, 1);
    push_u32(&mut body, 2);
    push_str(&mut body, "x");
    push_u32(&mut body, 0);
    let m = msg("(iisb)", body);
    let mut r = Reader::from_message(&m);
    match r.consume::<(i32, i32)>() {
        Err(Error::TrailingType { actual }) => {
            assert_eq!(actual.unwrap().to_string(), "sb");
        }
        other => panic!("unexpected result {:?}", other),
    }
}

#[test]
fn dict_entry_truncated_value_reports_end() {
    // The value of the entry is cut off after two of its four bytes.
    let mut body = Vec::new();
    push_str(&mut body, "k");
    body.extend_from_slice(&[1, 0]);
    let m = msg("{su}", body);
    let mut r = Reader::from_message(&m);
    match r.consume::<DictEntry<String, u32>>() {
        Err(Error::UnexpectedEnd { expected }) => {
            assert_eq!(expected.to_string(), "u");
        }
        other => panic!("unexpected result {:?}", other),
    }
}
