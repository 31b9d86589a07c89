use arcglyph::config::{default_config, Config, GroupCfg, Lang};
use arcglyph::gui::{
    apps_summary, direction_words, group_subtitle, header_title, pattern_arrow, pattern_preview,
    split_list, Action, Editor, ExternalMsg, Msg, WindowId,
};

fn s(x: &str) -> String {
    x.to_string()
}

fn editor() -> Editor {
    Editor::new(default_config())
}

#[test]
fn split_list_cases() {
    assert_eq!(split_list("LEFTCTRL + W"), vec![s("LEFTCTRL"), s("W")]);
    assert_eq!(split_list("a,b+c d\tE"), vec![s("a"), s("b"), s("c"), s("d"), s("E")]);
    assert_eq!(split_list(" ,, + "), Vec::<String>::new());
    assert_eq!(split_list(""), Vec::<String>::new());
    assert_eq!(split_list("F5"), vec![s("F5")]);
    assert_eq!(split_list("a\u{3000}b"), vec![s("a"), s("b")]);
}

#[test]
fn arrows_and_words() {
    assert_eq!(pattern_arrow('8'), '↑');
    assert_eq!(pattern_arrow('3'), '↘');
    assert_eq!(pattern_arrow('5'), '?');
    assert_eq!(direction_words("26"), "下 → 右");
    assert_eq!(direction_words(""), "");
    assert_eq!(direction_words("7x"), "左上 → ?");
    assert_eq!(pattern_preview(""), "（未设置）");
    assert_eq!(pattern_preview("46"), "←→");
}

#[test]
fn sidebar_and_header_texts() {
    assert_eq!(group_subtitle(&vec![]), "全局");
    assert_eq!(group_subtitle(&vec![s("a"), s("b")]), "a, b");
    assert_eq!(apps_summary(&vec![]), "适用于所有应用");
    assert_eq!(apps_summary(&vec![s("a"), s("b"), s("c")]), "已关联 3 个");
    let e = editor();
    assert_eq!(header_title(e.current_group()), "Browser 手势");
    assert_eq!(header_title(None), "无分组");
}

#[test]
fn show_opens_then_focuses() {
    let mut e = editor();
    assert_eq!(e.update(Msg::Tray(ExternalMsg::Show)), Action::OpenWindow);
    assert_eq!(e.update(Msg::WindowOpened(WindowId(7))), Action::Nothing);
    assert_eq!(e.update(Msg::Tray(ExternalMsg::Show)), Action::FocusWindow(WindowId(7)));
    e.update(Msg::WindowClosed(WindowId(8)));
    assert_eq!(e.window, Some(WindowId(7)));
    e.update(Msg::WindowClosed(WindowId(7)));
    assert_eq!(e.window, None);
    assert_eq!(e.update(Msg::Tray(ExternalMsg::Quit)), Action::Exit);
}

#[test]
fn group_management() {
    let mut e = editor();
    e.update(Msg::AddGroup);
    assert_eq!(e.cfg.groups.len(), 2);
    assert_eq!(e.cfg.groups[1].name, "新分组");
    assert_eq!(e.selected_group, 1);
    assert!(e.dirty);
    e.update(Msg::GroupNameChanged(s("Term")));
    assert_eq!(e.cfg.groups[1].name, "Term");
    e.update(Msg::RemoveGroup(1));
    assert_eq!(e.cfg.groups.len(), 1);
    assert_eq!(e.selected_group, 0);
    e.update(Msg::RemoveGroup(5));
    assert_eq!(e.cfg.groups.len(), 1);
    e.update(Msg::RemoveGroup(0));
    assert!(e.cfg.groups.is_empty());
    assert_eq!(e.selected_group, 0);
    assert!(e.current_group().is_none());
    e.update(Msg::GroupNameChanged(s("x")));
    assert!(e.cfg.groups.is_empty());
}

#[test]
fn attach_and_detach_apps() {
    let mut e = editor();
    e.update(Msg::GroupAppInput(s("  kitty \n")));
    e.update(Msg::GroupAttachApp);
    assert_eq!(e.cfg.groups[0].apps.last().unwrap(), "kitty");
    assert_eq!(e.group_app_input, "");
    let n = e.cfg.groups[0].apps.len();
    e.update(Msg::GroupAppInput(s("kitty")));
    e.update(Msg::GroupAttachApp);
    assert_eq!(e.cfg.groups[0].apps.len(), n);
    e.update(Msg::GroupAppInput(s("   ")));
    e.update(Msg::GroupAttachApp);
    assert_eq!(e.cfg.groups[0].apps.len(), n);
    e.update(Msg::GroupDetachApp(s("chromium")));
    assert_eq!(e.cfg.groups[0].apps, vec![s("google-chrome"), s("microsoft-edge"), s("kitty")]);
}

#[test]
fn detach_missing_app_keeps_clean() {
    let mut e = editor();
    e.update(Msg::GroupDetachApp(s("nope")));
    assert!(!e.dirty);
    e.update(Msg::ToggleGroup(true));
    assert!(!e.dirty);
    e.update(Msg::ToggleGlobal(true));
    assert!(!e.dirty);
    e.update(Msg::ToggleGlobal(false));
    assert!(e.dirty);
    assert!(!e.cfg.enabled);
}

#[test]
fn gesture_editing() {
    let mut e = editor();
    e.update(Msg::AddGesture);
    let i = e.cfg.groups[0].gestures.len() - 1;
    let g = &e.cfg.groups[0].gestures[i];
    assert_eq!(g.pattern, "6");
    assert_eq!(g.keys, vec![s("LEFTALT"), s("RIGHT")]);
    assert_eq!(g.label.as_deref(), Some("新手势"));
    e.update(Msg::KeysChanged(i, s("ctrl + shift + t")));
    assert_eq!(e.cfg.groups[0].gestures[i].keys, vec![s("ctrl"), s("shift"), s("t")]);
    e.update(Msg::LabelChanged(i, s("")));
    assert_eq!(e.cfg.groups[0].gestures[i].label, None);
    e.update(Msg::PatternAppend(i, '6'));
    assert_eq!(e.cfg.groups[0].gestures[i].pattern, "6");
    e.update(Msg::PatternAppend(i, '2'));
    assert_eq!(e.cfg.groups[0].gestures[i].pattern, "62");
    e.update(Msg::PatternBackspace(i));
    assert_eq!(e.cfg.groups[0].gestures[i].pattern, "6");
    e.update(Msg::PatternClear(i));
    assert_eq!(e.cfg.groups[0].gestures[i].pattern, "");
    e.update(Msg::PatternBackspace(i));
    assert_eq!(e.cfg.groups[0].gestures[i].pattern, "");
    e.update(Msg::ToggleGesture(i, false));
    assert!(!e.cfg.groups[0].gestures[i].enabled);
    e.update(Msg::RemoveGesture(i));
    assert_eq!(e.cfg.groups[0].gestures.len(), i);
    e.update(Msg::RemoveGesture(99));
    assert_eq!(e.cfg.groups[0].gestures.len(), i);
}

#[test]
fn save_and_toast_flow() {
    let mut e = editor();
    e.update(Msg::ToggleGlobal(false));
    assert_eq!(e.update(Msg::Save), Action::SaveConfig);
    assert!(e.dirty);
    assert_eq!(e.save_finished(Ok(())), Action::ShowToast(s("已保存")));
    assert!(!e.dirty);
    assert_eq!(e.save_finished(Err(s("disk full"))), Action::ShowToast(s("保存失败: disk full")));
    assert_eq!(e.update(Msg::Toast(s("hi"))), Action::ClearToastLater);
    assert_eq!(e.toast.as_deref(), Some("hi"));
    e.update(Msg::ToastClear);
    assert_eq!(e.toast, None);
}

#[test]
fn pick_window_flow() {
    let mut e = editor();
    assert_eq!(e.update(Msg::PickApp), Action::StartPick(None));
    assert!(e.picking);
    assert_eq!(e.update(Msg::PickAppResult(Some(s("kitty")))), Action::Nothing);
    assert!(!e.picking);
    assert!(!e.cfg.groups[0].apps.contains(&s("kitty")));
    e.update(Msg::WindowOpened(WindowId(1)));
    assert_eq!(e.update(Msg::PickApp), Action::StartPick(Some(WindowId(1))));
    assert_eq!(
        e.update(Msg::PickAppResult(Some(s("kitty")))),
        Action::RestoreWindow(WindowId(1), s("已添加: kitty"))
    );
    assert!(e.cfg.groups[0].apps.contains(&s("kitty")));
    assert_eq!(
        e.update(Msg::PickAppResult(None)),
        Action::RestoreWindow(WindowId(1), s("未检测到应用"))
    );
}

#[test]
fn select_group_clears_input() {
    let mut e = Editor::new(Config { enabled: true, lang: Lang::En, groups: vec![GroupCfg { name: s("a"), apps: vec![], enabled: true, gestures: vec![] }] });
    e.update(Msg::GroupAppInput(s("abc")));
    e.update(Msg::SelectGroup(3));
    assert_eq!(e.selected_group, 3);
    assert_eq!(e.group_app_input, "");
    assert!(e.current_group().is_none());
    e.update(Msg::AddGesture);
    assert!(!e.dirty);
}

#[test]
fn pattern_pad_never_repeats_a_direction() {
    let mut e = editor();
    e.update(Msg::PatternClear(0));
    for c in ['6', '6', '2', '2', '2', '4', '6', '6'] {
        e.update(Msg::PatternAppend(0, c));
    }
    assert_eq!(e.cfg.groups[0].gestures[0].pattern, "6246");
    e.update(Msg::PatternBackspace(0));
    e.update(Msg::PatternAppend(0, '4'));
    assert_eq!(e.cfg.groups[0].gestures[0].pattern, "624");
}

#[test]
fn keys_shown_joined_split_back() {
    let keys = vec![s("LEFTCTRL"), s("LEFTSHIFT"), s("T")];
    assert_eq!(split_list(&keys.join(" + ")), keys);
    for item in split_list(" a,,b + c\td ") {
        assert!(!item.is_empty());
        assert!(!item.chars().any(|c| c == ',' || c == '+' || c.is_whitespace()));
    }
}
