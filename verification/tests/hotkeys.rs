use widgitron::hotkey::{
    hotkey_parts_of, hotkey_text, parse_hotkey, parse_hotkey_key, push_unique,
    resolve_sidebar_hotkey, DEFAULT_SIDEBAR_HOTKEY, MOD_ALT, MOD_CONTROL, MOD_NOREPEAT, MOD_SHIFT,
    MOD_WIN, VK_SPACE,
};

#[test]
fn parses_the_default_shortcut() {
    let parsed = parse_hotkey(DEFAULT_SIDEBAR_HOTKEY).unwrap();
    assert_eq!(parsed.display, "Ctrl+Alt+W");
    assert_eq!(parsed.modifiers, MOD_CONTROL | MOD_ALT);
    assert_eq!(parsed.key, 'W' as u32);
    assert_eq!(parsed.register_flags(), MOD_CONTROL | MOD_ALT | MOD_NOREPEAT);
}

#[test]
fn normalizes_parts_and_modifier_names() {
    assert_eq!(hotkey_parts_of(" ctrl + + shift+f5 "), vec!["CTRL", "SHIFT", "F5"]);
    let parsed = parse_hotkey("command+option+shift+space").unwrap();
    assert_eq!(parsed.display, "Win+Alt+Shift+Space");
    assert_eq!(parsed.modifiers, MOD_WIN | MOD_ALT | MOD_SHIFT);
    assert_eq!(parsed.key, VK_SPACE);
    let repeated = parse_hotkey("ctrl+control+F12").unwrap();
    assert_eq!(repeated.display, "Ctrl+F12");
    assert_eq!(repeated.key, 123);
}

#[test]
fn reads_function_and_character_keys() {
    assert_eq!(parse_hotkey_key("F1").unwrap(), ("F1".to_string(), 112));
    assert_eq!(parse_hotkey_key("F24").unwrap(), ("F24".to_string(), 135));
    assert_eq!(parse_hotkey_key("F07").unwrap(), ("F7".to_string(), 118));
    assert_eq!(parse_hotkey_key("7").unwrap(), ("7".to_string(), '7' as u32));
    assert!(parse_hotkey_key("F25").is_err());
    assert!(parse_hotkey_key("F0").is_err());
    assert_eq!(
        parse_hotkey_key("ESC").unwrap_err(),
        "supported keys are A-Z, 0-9, F1-F24, and Space"
    );
}

#[test]
fn rejects_incomplete_shortcuts() {
    assert_eq!(
        parse_hotkey("W").unwrap_err(),
        "use a modifier plus a key, for example Ctrl+Alt+W"
    );
    assert_eq!(
        parse_hotkey("A+B").unwrap_err(),
        "only one non-modifier key is supported"
    );
    assert_eq!(
        parse_hotkey("Ctrl+Alt").unwrap_err(),
        "missing final key"
    );
    assert_eq!(
        parse_hotkey("Ctrl+Tab").unwrap_err(),
        "supported keys are A-Z, 0-9, F1-F24, and Space"
    );
}

#[test]
fn a_shortcut_without_modifier_is_refused() {
    // With two parts and no modifier the second key is the error reported.
    assert_eq!(parse_hotkey("A+B").unwrap_err(), "only one non-modifier key is supported");
    for raw in ["Ctrl+A", "Shift+Space", "Win+F3"] {
        assert_ne!(parse_hotkey(raw).unwrap().modifiers, 0);
    }
}

#[test]
fn falls_back_to_the_default_shortcut() {
    assert_eq!(hotkey_text(&None), "Ctrl+Alt+W");
    assert_eq!(hotkey_text(&Some("   ".to_string())), "Ctrl+Alt+W");
    assert_eq!(hotkey_text(&Some(" Alt+Q ".to_string())), "Alt+Q");
    let chosen = resolve_sidebar_hotkey(&Some("Alt+Q".to_string())).unwrap();
    assert_eq!(chosen.display, "Alt+Q");
    let fallback = resolve_sidebar_hotkey(&Some("Q".to_string())).unwrap();
    assert_eq!(fallback.display, "Ctrl+Alt+W");
}

#[test]
fn push_unique_keeps_one_copy() {
    let mut parts = vec!["Ctrl".to_string()];
    push_unique(&mut parts, "Ctrl".to_string());
    push_unique(&mut parts, "Alt".to_string());
    push_unique(&mut parts, "Alt".to_string());
    assert_eq!(parts, vec!["Ctrl", "Alt"]);
}
