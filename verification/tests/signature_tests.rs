use geekytray::reader::Error;
use geekytray::signature::Signature;
use geekytray::signature::WireType;

fn parse_str(s: &str) -> Result<Signature, Error> {
    Signature::parse(&s.as_bytes().to_vec())
}

#[test]
fn parse_basic_codes_round_trip() {
    for s in ["b", "y", "n", "q", "i", "u", "x", "t", "d", "s", "o", "g", "h", "v"] {
        let sig = parse_str(s).unwrap();
        assert_eq!(sig.to_string(), s);
        assert_eq!(sig.len(), 1);
    }
}

#[test]
fn parse_nested_round_trip() {
    for s in [
        "",
        "ii",
        "ai",
        "aai",
        "(is)",
        "a(is)",
        "a{sv}",
        "(i(si))",
        "()",
        "a{s(iv)}",
        "(bynqiuxtdsoghv)",
        "av",
        "isiaai",
    ] {
        let sig = parse_str(s).expect(s);
        assert_eq!(sig.to_string(), s, "round trip of {:?}", s);
        assert_eq!(sig.to_bytes(), s.as_bytes().to_vec());
    }
}

#[test]
fn parse_rejects_malformed() {
    for s in ["a", "(", "(i", "{si", "{s", "{sii}", "{s}", ")", "z", "}", "a}", "i)", "{vs}i("] {
        match parse_str(s) {
            Err(Error::MalformedSignature) => {}
            other => panic!("{:?} parsed to {:?}", s, other),
        }
    }
}

#[test]
fn signature_single_and_duplicate() {
    let sig = Signature::single(WireType::Array(Box::new(WireType::Int32)));
    assert_eq!(sig.to_string(), "ai");
    let copy = sig.duplicate();
    assert_eq!(copy.to_string(), "ai");
    assert_eq!(sig, copy);
}

#[test]
fn wire_type_same_as_is_structural() {
    let a = parse_str("a{s(iv)}").unwrap();
    let b = parse_str("a{s(iv)}").unwrap();
    let c = parse_str("a{s(vi)}").unwrap();
    assert!(a.type_at(0).same_as(b.type_at(0)));
    assert!(!a.type_at(0).same_as(c.type_at(0)));
    assert!(!a.type_at(0).same_as(&WireType::Int32));
}

#[test]
fn parse_dict_entry_members() {
    let sig = parse_str("{sv}").unwrap();
    match sig.type_at(0) {
        WireType::DictEntry(k, v) => {
            assert!(matches!(**k, WireType::String));
            assert!(matches!(**v, WireType::Variant));
        }
        other => panic!("unexpected type {:?}", other),
    }
}
