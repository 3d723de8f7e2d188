use geekytray::alignment::HorizontalAlign;
use geekytray::alignment::VerticalAlign;
use geekytray::arg_type::ArgType;
use geekytray::command::Command;
use geekytray::command::MouseButton;
use geekytray::config::Color;
use geekytray::config::ColorConfig;
use geekytray::key_mapping::Key;
use geekytray::key_mapping::KeyMapping;
use geekytray::key_mapping::KeyMappingInterInterpreter;
use geekytray::key_mapping::Modifiers;
use geekytray::message::Message;
use geekytray::reader::Error;
use geekytray::signature::Signature;
use geekytray::signature::WireType;
use geekytray::values::Any;

#[test]
fn heterogeneous_array_is_rejected() {
    let values = vec![Any::Int32(1), Any::String("two".to_string()), Any::Int32(3)];
    match Any::array(values, WireType::Int32) {
        Err(Error::UnexpectedType { expected, actual }) => {
            assert_eq!(expected.to_string(), "i");
            assert_eq!(actual.unwrap().to_string(), "s");
        }
        other => panic!("unexpected result {:?}", other),
    }
}

#[test]
fn homogeneous_array_is_accepted() {
    let values = vec![Any::Int32(1), Any::Int32(2)];
    match Any::array(values, WireType::Int32) {
        Ok(Any::Array(elems, _)) => assert_eq!(elems.len(), 2),
        other => panic!("unexpected result {:?}", other),
    }
}

#[test]
fn any_reports_its_wire_type() {
    let v = Any::Struct(vec![Any::Int32(1), Any::Variant(Box::new(Any::Byte(2)))]);
    assert_eq!(v.signature().to_string(), "(iv)");
    assert_eq!(v.arg_type(), ArgType::Struct);
    let a = Any::Array(vec![], WireType::String);
    assert_eq!(a.signature().to_string(), "as");
    assert_eq!(a.arg_type(), ArgType::Array);
    assert_eq!(Any::DictEntry(Box::new(Any::String("k".into())), Box::new(Any::Uint32(1)))
        .signature()
        .to_string(), "{su}");
}

#[test]
fn arg_type_classification() {
    assert!(ArgType::Int32.is_basic());
    assert!(ArgType::String.is_basic());
    assert!(!ArgType::Array.is_basic());
    assert!(ArgType::Array.is_container());
    assert!(ArgType::Struct.is_container());
    assert!(ArgType::Variant.is_container());
    assert!(ArgType::DictEntry.is_container());
    assert!(!ArgType::Invalid.is_basic());
    assert!(!ArgType::Invalid.is_container());
    assert_eq!(ArgType::from_code(b'i'), ArgType::Int32);
    assert_eq!(ArgType::from_code(b'!'), ArgType::Invalid);
    assert_eq!(ArgType::Int32.code(), b'i');
}

#[test]
fn message_exposes_body_and_signature() {
    let body = vec![1, 2, 3, 4];
    let m = Message::new(body.clone(), Signature::parse(&b"i".to_vec()).unwrap());
    assert_eq!(m.body(), &body);
    assert_eq!(m.signature().to_string(), "i");
}

#[test]
fn key_mapping_eval_finds_bound_commands() {
    let mappings = vec![
        KeyMapping::new(Key(0x31), Modifiers::none(), vec![Command::SelectItem(0)]),
        KeyMapping::new(Key(0x71), Modifiers::none(), vec![Command::HideWindow]),
        KeyMapping::new(
            Key(0x6e),
            Modifiers::control(),
            vec![Command::SelectNextItem, Command::ShowWindow],
        ),
    ];
    let interp = KeyMappingInterInterpreter::new(mappings);
    assert_eq!(interp.eval(Key(0x31), Modifiers::none()), vec![Command::SelectItem(0)]);
    assert_eq!(interp.eval(Key(0x71), Modifiers::none()), vec![Command::HideWindow]);
    assert_eq!(
        interp.eval(Key(0x6e), Modifiers::control()),
        vec![Command::SelectNextItem, Command::ShowWindow]
    );
    // An unbound key, and a bound key with different modifiers, yield nothing.
    assert!(interp.eval(Key(0x99), Modifiers::none()).is_empty());
    assert!(interp.eval(Key(0x71), Modifiers::shift()).is_empty());
}

#[test]
fn key_mapping_later_binding_wins() {
    let mappings = vec![
        KeyMapping::new(Key(10), Modifiers::none(), vec![Command::HideWindow]),
        KeyMapping::new(Key(10), Modifiers::none(), vec![Command::ShowWindow]),
    ];
    let interp = KeyMappingInterInterpreter::new(mappings);
    assert_eq!(interp.eval(Key(10), Modifiers::none()), vec![Command::ShowWindow]);
}

#[test]
fn default_colors_match_scheme() {
    let c = ColorConfig::default();
    assert_eq!(c.window_background, Color { red: 0x21, green: 0x27, blue: 0x2b, alpha: 255 });
    assert_eq!(c.normal_item_background, Color { red: 0x36, green: 0x3f, blue: 0x45, alpha: 255 });
    assert_eq!(c.normal_item_foreground, c.selected_item_foreground);
    assert_eq!(c.selected_item_background, Color::from_rgb(0x1c95e6));
}

#[test]
fn commands_and_alignment_compare_structurally() {
    assert_eq!(Command::ClickMouseButton(MouseButton::Left), Command::ClickMouseButton(MouseButton::Left));
    assert_ne!(Command::ClickMouseButton(MouseButton::Left), Command::ClickMouseButton(MouseButton::X2));
    assert_ne!(Command::SelectItem(1), Command::SelectItem(2));
    assert_eq!(VerticalAlign::Middle, VerticalAlign::Middle);
    assert_ne!(HorizontalAlign::Left, HorizontalAlign::Right);
}
