use chart_server::command::{
    command_names, parse_arg_specs, parse_one_arg_spec, ArgTransform, ArgType, CommandConfig,
    CommandPalette, CommandSpec,
};

fn cfg() -> CommandConfig {
    CommandConfig::from_values(
        Some(" 127.0.0.1:5000 ".to_string()),
        vec![
            CommandSpec::from_raw("buy".to_string(), "qty:int=1; price:float:mul_1e9_u64"),
            CommandSpec::from_raw("ping".to_string(), ""),
        ],
    )
}

#[test]
fn argument_types_and_transforms() {
    assert_eq!(ArgType::parse(" INT "), Some(ArgType::Int));
    assert_eq!(ArgType::parse("Float"), Some(ArgType::Float));
    assert_eq!(ArgType::parse("string"), Some(ArgType::String));
    assert_eq!(ArgType::parse("str"), None);
    assert_eq!(ArgTransform::parse(""), Some(ArgTransform::Plain));
    assert_eq!(ArgTransform::parse("  "), Some(ArgTransform::Plain));
    assert_eq!(ArgTransform::parse("MUL_1E9_U64"), Some(ArgTransform::Mul1e9U64));
    assert_eq!(ArgTransform::parse("x"), None);
    assert_eq!(ArgTransform::Mul1e9U64.name(), "mul_1e9_u64");
    assert_eq!(ArgTransform::Plain.name(), "");
}

#[test]
fn argument_specifications() {
    let a = parse_one_arg_spec(" qty : int = 5 = 6 ").unwrap();
    assert_eq!(a.name, "qty");
    assert_eq!(a.arg_type, ArgType::Int);
    assert_eq!(a.transform, ArgTransform::Plain);
    assert_eq!(a.default_value, "5 = 6");
    let b = parse_one_arg_spec("p:float:mul_1e9_u64").unwrap();
    assert_eq!(b.transform, ArgTransform::Mul1e9U64);
    assert_eq!(b.default_value, "");
    assert!(parse_one_arg_spec("p").is_none());
    assert!(parse_one_arg_spec("p:float:x").is_none());
    assert!(parse_one_arg_spec("p:bogus").is_none());
    assert!(parse_one_arg_spec("a:int:b:c").is_none());
    let all = parse_arg_specs(" a:int ; bad ;; s:string=hi ;");
    assert_eq!(all.len(), 2);
    assert_eq!(all[1].name, "s");
    assert_eq!(all[1].default_value, "hi");
    assert_eq!(command_names(" buy; ;ping;"), vec!["buy".to_string(), "ping".to_string()]);
}

#[test]
fn command_configuration() {
    let c = cfg();
    assert!(c.enabled());
    assert_eq!(c.tcp_addr.as_deref(), Some("127.0.0.1:5000"));
    assert_eq!(c.commands[0].args.len(), 2);
    let off = CommandConfig::from_values(Some("  ".to_string()), vec![]);
    assert!(!off.enabled());
}

#[test]
fn the_palette_records_defaults_and_keeps_its_cursor_inside() {
    let c = cfg();
    let mut p = CommandPalette::default();
    p.arg_index = 9;
    p.sync_with_selection(&c);
    assert_eq!(p.arg_index, 1);
    assert_eq!(p.current_arg_inputs(&c), vec!["1".to_string(), "".to_string()]);
    p.push_arg_char(&c, '7');
    assert_eq!(p.current_arg_inputs(&c), vec!["1".to_string(), "7".to_string()]);
    p.arg_index = 0;
    p.pop_arg_char(&c);
    p.pop_arg_char(&c);
    assert_eq!(p.current_arg_inputs(&c), vec!["".to_string(), "7".to_string()]);
    p.sync_with_selection(&c);
    assert_eq!(p.current_arg_inputs(&c), vec!["".to_string(), "7".to_string()]);
    p.selected = 1;
    p.sync_with_selection(&c);
    assert_eq!(p.arg_index, 0);
    assert!(p.current_arg_inputs(&c).is_empty());
    assert_eq!(p.arg_inputs_by_command.len(), 2);
    p.editing_custom = true;
    assert!(p.current_arg_inputs(&c).is_empty());
    assert!(p.current_arg_inputs_mut(&c).is_none());
    p.editing_custom = false;
    p.selected = 0;
    p.current_arg_inputs_mut(&c).unwrap()[0].push('x');
    assert_eq!(p.current_arg_inputs(&c)[0], "x");
}

#[test]
fn mismatched_inputs_are_reset_to_the_defaults() {
    let c = cfg();
    let mut p = CommandPalette::default();
    p.arg_inputs_by_command.push(("buy".to_string(), vec!["only".to_string()]));
    p.sync_with_selection(&c);
    assert_eq!(p.current_arg_inputs(&c), vec!["1".to_string(), "".to_string()]);
}
