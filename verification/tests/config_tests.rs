use arcglyph::config::{
    config_from_parses, config_home_from, config_path_from, default_config, flatten_groups,
    group_legacy, Config, Gesture, GestureCfg, GroupCfg, Lang, LegacyConfig, LegacyGestureCfg,
};
use arcglyph::keys::{name, parse, Key};
use arcglyph::yaml::{format_config, format_gesture_line, looks_like_float, yaml_scalar, HEADER};

fn s(x: &str) -> String {
    x.to_string()
}

fn legacy(pattern: &str, apps: &[&str]) -> LegacyGestureCfg {
    LegacyGestureCfg {
        label: None,
        pattern: s(pattern),
        keys: vec![s("F5")],
        apps: apps.iter().map(|a| s(a)).collect(),
        enabled: true,
    }
}

#[test]
fn parse_key_names() {
    assert_eq!(parse("LEFTCTRL"), Ok(Key(29)));
    assert_eq!(parse("leftctrl"), Ok(Key(29)));
    assert_eq!(parse("KEY_W"), Ok(Key(17)));
    assert_eq!(parse("key_w"), Ok(Key(17)));
    assert_eq!(parse("BTN_LEFT"), Ok(Key(0x110)));
    assert_eq!(parse("F5"), Ok(Key(63)));
}

#[test]
fn parse_unknown_key_fails_with_its_name() {
    let e = parse("Foobar").unwrap_err();
    assert_eq!(e.name, "Foobar");
    assert_eq!(e.message(), "unknown key: Foobar");
    assert!(parse("").is_err());
    assert!(parse("LEFT CTRL").is_err());
}

#[test]
fn key_display_names() {
    assert_eq!(name(Key(30)), "A");
    assert_eq!(name(Key(29)), "LEFTCTRL");
    assert_eq!(name(Key(0x110)), "LEFT");
    assert_eq!(name(Key(0x2ff)), "unknown key: 767");
}

#[test]
fn key_name_round_trip_for_keyboard_keys() {
    for code in [1u16, 17, 29, 30, 56, 63, 105, 106] {
        assert_eq!(parse(&name(Key(code))), Ok(Key(code)));
    }
}

#[test]
fn gesture_from_cfg_inherits_group() {
    let cfg = GestureCfg { label: Some(s("Close")), pattern: s("26"), keys: vec![s("leftctrl"), s("w")], enabled: true };
    let g = Gesture::from_cfg(&cfg, &[s("chrome")], false).unwrap();
    assert_eq!(g.keys, vec![Key(29), Key(17)]);
    assert_eq!(g.apps, vec![s("chrome")]);
    assert_eq!(g.label.as_deref(), Some("Close"));
    assert_eq!(g.pattern, "26");
    assert!(!g.enabled);
}

#[test]
fn gesture_from_cfg_reports_first_bad_key() {
    let cfg = GestureCfg { label: None, pattern: s("6"), keys: vec![s("A"), s("NOPE"), s("ALSO_NOPE")], enabled: true };
    assert_eq!(Gesture::from_cfg(&cfg, &[], true).unwrap_err().name, "NOPE");
}

#[test]
fn flatten_keeps_order_and_group_switch() {
    let g1 = GroupCfg {
        name: s("a"),
        apps: vec![s("x")],
        enabled: false,
        gestures: vec![GestureCfg { label: None, pattern: s("6"), keys: vec![s("A")], enabled: true }],
    };
    let g2 = GroupCfg {
        name: s("b"),
        apps: vec![],
        enabled: true,
        gestures: vec![
            GestureCfg { label: None, pattern: s("4"), keys: vec![s("W")], enabled: true },
            GestureCfg { label: None, pattern: s("2"), keys: vec![s("T")], enabled: false },
        ],
    };
    let out = flatten_groups(&[g1, g2]).unwrap();
    assert_eq!(out.len(), 3);
    assert_eq!(out[0].pattern, "6");
    assert!(!out[0].enabled);
    assert_eq!(out[0].apps, vec![s("x")]);
    assert_eq!(out[1].pattern, "4");
    assert!(out[1].enabled);
    assert!(!out[2].enabled);
}

#[test]
fn flatten_fails_on_bad_key() {
    let g = GroupCfg {
        name: s("a"),
        apps: vec![],
        enabled: true,
        gestures: vec![
            GestureCfg { label: None, pattern: s("6"), keys: vec![s("A")], enabled: true },
            GestureCfg { label: None, pattern: s("4"), keys: vec![s("WHAT")], enabled: true },
        ],
    };
    assert_eq!(flatten_groups(&[g]).unwrap_err().name, "WHAT");
}

#[test]
fn default_config_is_the_browser_group() {
    let c = default_config();
    assert!(c.enabled);
    assert_eq!(c.lang, Lang::En);
    assert_eq!(c.groups.len(), 1);
    let g = &c.groups[0];
    assert_eq!(g.name, "Browser");
    assert_eq!(g.apps, vec![s("google-chrome"), s("chromium"), s("microsoft-edge")]);
    let pats: Vec<&str> = g.gestures.iter().map(|x| x.pattern.as_str()).collect();
    assert_eq!(pats, vec!["4", "6", "8", "2", "26", "24", "46"]);
    assert_eq!(g.gestures[5].keys, vec![s("LEFTCTRL"), s("LEFTSHIFT"), s("T")]);
    assert!(flatten_groups(&c.groups).is_ok());
}

#[test]
fn config_default_trait() {
    let c = Config::default();
    assert!(c.enabled);
    assert_eq!(c.lang, Lang::En);
    assert!(c.groups.is_empty());
    assert_eq!(Lang::default(), Lang::En);
}

#[test]
fn legacy_gestures_are_grouped_by_app_set() {
    let gs = vec![
        legacy("6", &["b", "a"]),
        legacy("4", &[]),
        legacy("2", &["a", "b"]),
        legacy("8", &["c"]),
    ];
    let groups = group_legacy(&gs);
    assert_eq!(groups.len(), 3);
    assert_eq!(groups[0].name, "a, b");
    assert_eq!(groups[0].apps, vec![s("b"), s("a")]);
    assert_eq!(groups[0].gestures.len(), 2);
    assert_eq!(groups[0].gestures[1].pattern, "2");
    assert_eq!(groups[1].name, "全局");
    assert!(groups[1].apps.is_empty());
    assert_eq!(groups[2].name, "c");
    assert!(groups.iter().all(|g| g.enabled));
}

#[test]
fn legacy_group_name_sorts_by_code_point() {
    let groups = group_legacy(&vec![legacy("6", &["zeta", "Alpha", "alpha", "é"])]);
    assert_eq!(groups[0].name, "Alpha, alpha, zeta, é");
}

#[test]
fn config_from_parses_prefers_grouped_form() {
    let modern = default_config();
    let r = config_from_parses(Some(modern.clone()), Some(LegacyConfig { enabled: false, gestures: vec![] }), None);
    assert_eq!(r, Some(modern));
}

#[test]
fn config_from_parses_falls_back_to_legacy() {
    let empty = Config { enabled: true, lang: Lang::Zh, groups: vec![] };
    let r = config_from_parses(
        Some(empty),
        Some(LegacyConfig { enabled: false, gestures: vec![legacy("6", &[])] }),
        None,
    )
    .unwrap();
    assert!(!r.enabled);
    assert_eq!(r.lang, Lang::En);
    assert_eq!(r.groups.len(), 1);
    let r2 = config_from_parses(None, None, Some(vec![legacy("6", &["x"])])).unwrap();
    assert!(r2.enabled);
    assert_eq!(r2.groups[0].name, "x");
    assert_eq!(config_from_parses(None, None, None), None);
}

#[test]
fn config_paths() {
    assert_eq!(config_path_from(Some(s("/tmp/x.yaml")), Some(s("/c")), Some(s("/h"))), "/tmp/x.yaml");
    assert_eq!(config_path_from(None, Some(s("/c")), Some(s("/h"))), "/c/arcglyph/arcglyph.yaml");
    assert_eq!(config_path_from(None, Some(s("/c/")), None), "/c/arcglyph/arcglyph.yaml");
    assert_eq!(config_path_from(None, None, Some(s("/home/u"))), "/home/u/.config/arcglyph/arcglyph.yaml");
    assert_eq!(config_path_from(None, None, None), "./.config/arcglyph/arcglyph.yaml");
    assert_eq!(config_path_from(None, Some(s("")), None), "arcglyph/arcglyph.yaml");
    assert_eq!(config_home_from(None, Some(s("/h"))), "/h/.config");
    let std_join = std::path::PathBuf::from("/home/u").join(".config").join("arcglyph").join("arcglyph.yaml");
    assert_eq!(config_path_from(None, None, Some(s("/home/u"))), std_join.to_str().unwrap());
}

#[test]
fn float_recognizer_agrees_with_std() {
    let cases = [
        "1", "1.", ".5", ".", "", "+", "-", "1e5", "1E5", "1e", "1e+", "1e+5", "1e-5", "e5", "-1.5e10",
        "inf", "Inf", "-INFINITY", "infinity", "nan", "NaN", "+nan", "infin", "1.2.3", "1_000", "0x10",
        "12abc", " 1", "1 ", "++1", "1.5E-3", "9.", "-.9", "1..2", "1e5.5", "nane", "-",
    ];
    for c in cases {
        let chars: Vec<char> = c.chars().collect();
        assert_eq!(looks_like_float(&chars), c.parse::<f64>().is_ok(), "case {:?}", c);
    }
}

#[test]
fn yaml_scalars() {
    assert_eq!(yaml_scalar("LEFTCTRL"), "LEFTCTRL");
    assert_eq!(yaml_scalar("google-chrome"), "google-chrome");
    assert_eq!(yaml_scalar("全局"), "全局");
    assert_eq!(yaml_scalar(""), "\"\"");
    assert_eq!(yaml_scalar("26"), "\"26\"");
    assert_eq!(yaml_scalar("1e5"), "\"1e5\"");
    assert_eq!(yaml_scalar("inf"), "\"inf\"");
    assert_eq!(yaml_scalar("true"), "\"true\"");
    assert_eq!(yaml_scalar("no"), "\"no\"");
    assert_eq!(yaml_scalar("Yes"), "Yes");
    assert_eq!(yaml_scalar("Close tab"), "\"Close tab\"");
    assert_eq!(yaml_scalar("a\"b\\c"), "\"a\\\"b\\\\c\"");
}

#[test]
fn gesture_line_format() {
    let g = GestureCfg { label: Some(s("Close tab")), pattern: s("26"), keys: vec![s("LEFTCTRL"), s("W")], enabled: false };
    assert_eq!(
        format_gesture_line(&g),
        "- { label: \"Close tab\", enabled: false, pattern: \"26\", keys: [LEFTCTRL, W] }"
    );
    let h = GestureCfg { label: None, pattern: s("x"), keys: vec![], enabled: true };
    assert_eq!(format_gesture_line(&h), "- { pattern: x, keys: [] }");
}

#[test]
fn config_text_format() {
    let cfg = Config {
        enabled: false,
        lang: Lang::Zh,
        groups: vec![
            GroupCfg {
                name: s("Browser"),
                apps: vec![s("chromium"), s("a b")],
                enabled: true,
                gestures: vec![GestureCfg { label: None, pattern: s("4"), keys: vec![s("F5")], enabled: true }],
            },
            GroupCfg { name: s("Off"), apps: vec![], enabled: false, gestures: vec![] },
        ],
    };
    let expected = format!(
        "{}enabled: false\nlang: zh\ngroups:\n  - name: Browser\n    apps: [chromium, \"a b\"]\n    gestures:\n      - {{ pattern: \"4\", keys: [F5] }}\n  - name: Off\n    enabled: false\n    gestures:\n",
        HEADER
    );
    assert_eq!(format_config(&cfg), expected);
    assert!(HEADER.starts_with("# arcglyph gesture bindings\n"));
}

#[test]
fn quoted_scalars_read_back_through_yaml() {
    for text in ["", "26", "1e5", "inf", "true", "no", "Close tab", "a\"b\\c", "\\", "\"", "x # y"] {
        let written = yaml_scalar(text);
        assert!(written.starts_with('"'));
        let read: String = serde_yaml::from_str(&written).unwrap();
        assert_eq!(read, text);
    }
}

#[test]
fn written_config_reads_back_as_strings() {
    let text = format_config(&default_config());
    let v: serde_yaml::Value = serde_yaml::from_str(&text).unwrap();
    assert_eq!(v["enabled"].as_bool(), Some(true));
    assert_eq!(v["lang"].as_str(), Some("en"));
    let g = &v["groups"][0];
    assert_eq!(g["name"].as_str(), Some("Browser"));
    assert_eq!(g["apps"][2].as_str(), Some("microsoft-edge"));
    assert_eq!(g["gestures"][4]["pattern"].as_str(), Some("26"));
    assert_eq!(g["gestures"][4]["label"].as_str(), Some("Close tab"));
    assert_eq!(g["gestures"][5]["keys"][1].as_str(), Some("LEFTSHIFT"));
}

#[test]
fn legacy_regrouping_keeps_every_gesture() {
    let gs = vec![
        legacy("6", &["x", "y", "z"]),
        legacy("4", &["z", "x", "y"]),
        legacy("2", &["y"]),
        legacy("8", &[]),
        legacy("26", &["y", "z", "x"]),
    ];
    let groups = group_legacy(&gs);
    assert_eq!(groups.iter().map(|g| g.gestures.len()).sum::<usize>(), gs.len());
    assert_eq!(groups.len(), 3);
    assert_eq!(groups[0].gestures.len(), 3);
    assert_eq!(groups[0].name, "x, y, z");
    assert!(groups.iter().all(|g| g.enabled && !g.gestures.is_empty()));
}

#[test]
fn key_names_ignore_case() {
    assert_eq!(parse("LeftCtrl"), parse("LEFTCTRL"));
    assert_eq!(parse("kEy_F5"), Ok(Key(63)));
    assert_eq!(parse("btn_right"), Ok(Key(0x111)));
}

#[test]
fn header_lines_are_comments() {
    assert!(HEADER.ends_with('\n'));
    assert!(HEADER.lines().all(|l| l.starts_with('#')));
}

fn strings(v: &serde_yaml::Value) -> Vec<String> {
    v.as_sequence().unwrap().iter().map(|x| x.as_str().unwrap().to_string()).collect()
}

// An empty block value (`gestures:` with nothing under it) is null in a `Value`; serde_yaml reads
// it as an empty list when the target is a list, and so does this conversion.
fn config_from_yaml(v: &serde_yaml::Value) -> Config {
    let lang = match v["lang"].as_str().unwrap() {
        "en" => Lang::En,
        "zh" => Lang::Zh,
        other => panic!("unexpected lang {}", other),
    };
    let groups = v["groups"]
        .as_sequence()
        .unwrap()
        .iter()
        .map(|g| GroupCfg {
            name: g["name"].as_str().unwrap().to_string(),
            apps: g.get("apps").map(strings).unwrap_or_default(),
            enabled: g.get("enabled").map(|e| e.as_bool().unwrap()).unwrap_or(true),
            gestures: g["gestures"]
                .as_sequence()
                .cloned()
                .unwrap_or_default()
                .iter()
                .map(|x| GestureCfg {
                    label: x.get("label").map(|l| l.as_str().unwrap().to_string()),
                    pattern: x["pattern"].as_str().unwrap().to_string(),
                    keys: strings(&x["keys"]),
                    enabled: x.get("enabled").map(|e| e.as_bool().unwrap()).unwrap_or(true),
                })
                .collect(),
        })
        .collect();
    Config { enabled: v["enabled"].as_bool().unwrap(), lang, groups }
}

#[test]
fn written_config_reads_back_as_written() {
    let tricky = Config {
        enabled: false,
        lang: Lang::Zh,
        groups: vec![
            GroupCfg {
                name: s("a \"b\" \\ c"),
                apps: vec![s("x"), s("26"), s("true"), s("日本"), s("a, b")],
                enabled: false,
                gestures: vec![
                    GestureCfg { label: Some(s("")), pattern: s(""), keys: vec![], enabled: false },
                    GestureCfg {
                        label: None,
                        pattern: s("2468"),
                        keys: vec![s("1e5"), s("null"), s("F5")],
                        enabled: true,
                    },
                ],
            },
            GroupCfg { name: s("empty"), apps: vec![], enabled: true, gestures: vec![] },
        ],
    };
    for cfg in [default_config(), tricky] {
        let text = format_config(&cfg);
        let v: serde_yaml::Value = serde_yaml::from_str(&text).unwrap();
        assert_eq!(config_from_yaml(&v), cfg);
    }
}
