use arcglyph::autostart::{autostart_path_from, desktop_entry, exec_path_from};
use arcglyph::devices::{is_event_node, is_gesture_mouse};
use arcglyph::focus::{generate_script, loaded_script_id, reply_for_call, reply_step, script_name, FocusHandle, FocusTracker, ReplyPoll, ReplyStep, ScriptReply};
use arcglyph::gui::ExternalMsg;
use arcglyph::injector::{keyboard_codes, shortcut_strokes, KeyStroke};
use arcglyph::keys::Key;
use arcglyph::overlay::{argb_frame, can_draw, configured_size};
use arcglyph::perms::{can_read_any_event, can_write_uinput, probe, NodeProbe, PermStatus};
use arcglyph::tray::{external_msg_for, TrayCmd};

fn s(x: &str) -> String {
    x.to_string()
}

#[test]
fn perm_status_ok() {
    assert!(PermStatus { can_read_input: true, can_write_uinput: true }.ok());
    assert!(!PermStatus { can_read_input: true, can_write_uinput: false }.ok());
    assert!(!PermStatus { can_read_input: false, can_write_uinput: true }.ok());
}

#[test]
fn reading_input_nodes() {
    let node = |n: &str, r: bool| NodeProbe { name: s(n), readable: r };
    assert!(!can_read_any_event(&None));
    assert!(can_read_any_event(&Some(vec![])));
    assert!(can_read_any_event(&Some(vec![node("mice", false), node("by-id", false)])));
    assert!(!can_read_any_event(&Some(vec![node("event0", false), node("mice", true)])));
    assert!(can_read_any_event(&Some(vec![node("event0", false), node("event3", true)])));
    assert!(can_write_uinput(false, false));
    assert!(can_write_uinput(true, true));
    assert!(!can_write_uinput(true, false));
    let p = probe(&Some(vec![node("event1", true)]), true, false);
    assert_eq!(p, PermStatus { can_read_input: true, can_write_uinput: false });
}

#[test]
fn device_selection() {
    assert!(is_event_node("event12"));
    assert!(!is_event_node("mouse0"));
    assert!(!is_event_node("even"));
    assert!(is_gesture_mouse(true, true, true));
    assert!(!is_gesture_mouse(true, true, false));
}

#[test]
fn autostart_files() {
    assert_eq!(autostart_path_from(None, Some(s("/home/u"))), "/home/u/.config/autostart/arcglyph.desktop");
    assert_eq!(autostart_path_from(Some(s("/x")), None), "/x/autostart/arcglyph.desktop");
    assert_eq!(exec_path_from(true, Some(s("/tmp/a"))), "/usr/bin/arcglyph");
    assert_eq!(exec_path_from(false, Some(s("/tmp/a"))), "/tmp/a");
    assert_eq!(exec_path_from(false, None), "arcglyph");
    let e = desktop_entry("/usr/bin/arcglyph");
    assert!(e.starts_with("[Desktop Entry]\nType=Application\n"));
    assert!(e.contains("\nExec=/usr/bin/arcglyph\nIcon=input-mouse\n"));
    assert!(e.ends_with("X-KDE-StartupNotify=false\n"));
}

#[test]
fn focus_script_and_name() {
    let sc = generate_script(":1.42");
    assert!(sc.starts_with("\nfunction report(payload) {\n    callDBus(\":1.42\", \"/\", \"\", \"result\""));
    assert_eq!(sc.matches(":1.42").count(), 2);
    assert!(sc.ends_with("    report_err(e.toString());\n}\n"));
    assert_eq!(script_name(0), "arcglyph-focus-0");
    assert_eq!(script_name(1234567890123456789), "arcglyph-focus-1234567890123456789");
    assert_eq!(script_name(u128::MAX), format!("arcglyph-focus-{}", u128::MAX));
}

#[test]
fn reply_steps() {
    assert_eq!(reply_step(ReplyPoll::Got(ScriptReply::Result(s("{}"))), 900), ReplyStep::Done(Ok(s("{}"))));
    assert_eq!(reply_step(ReplyPoll::Got(ScriptReply::Error(s("boom"))), 0), ReplyStep::Done(Err(s("kwin script error: boom"))));
    assert_eq!(reply_step(ReplyPoll::Empty, 500), ReplyStep::Wait);
    assert_eq!(reply_step(ReplyPoll::Empty, 501), ReplyStep::Done(Err(s("timeout waiting for kwin response"))));
    assert_eq!(reply_step(ReplyPoll::Disconnected, 0), ReplyStep::Done(Err(s("channel closed"))));
}

#[test]
fn focus_cache() {
    let mut t = FocusTracker::default();
    assert_eq!(t.snapshot(), (None, false, false));
    t.refresh_with(Some((s("kitty"), true, false)));
    assert_eq!(t.snapshot(), (Some(s("kitty")), true, false));
    t.refresh_with(None);
    assert_eq!(t.snapshot(), (Some(s("kitty")), true, false));
    t.refresh_with(Some((s(""), false, true)));
    assert_eq!(t.snapshot(), (None, false, true));
    let _h = FocusHandle::inert();
}

#[test]
fn chord_strokes() {
    let ks = shortcut_strokes(&[Key(29), Key(42), Key(20)]);
    let pairs: Vec<(u16, i32)> = ks.iter().map(|k: &KeyStroke| (k.code, k.value)).collect();
    assert_eq!(pairs, vec![(29, 1), (42, 1), (20, 1), (20, 0), (42, 0), (29, 0)]);
    assert!(shortcut_strokes(&[]).is_empty());
    let codes = keyboard_codes();
    assert_eq!(codes.len(), 248);
    assert_eq!(codes[0], 1);
    assert_eq!(codes[247], 248);
}

#[test]
fn overlay_geometry() {
    assert_eq!(configured_size(800, 600, 0, 0), (800, 600, true));
    assert_eq!(configured_size(800, 600, 800, 600), (800, 600, false));
    assert_eq!(configured_size(0, 0, 0, 0), (1920, 1080, false));
    assert_eq!(configured_size(0, 600, 1024, 768), (1024, 768, false));
    assert!(can_draw(true, 1, 1));
    assert!(!can_draw(false, 1, 1));
    assert!(!can_draw(true, 0, 1));
}

#[test]
fn frame_swaps_red_and_blue() {
    let rgba = [1u8, 2, 3, 4, 5, 6, 7, 8, 9];
    assert_eq!(argb_frame(&rgba, 12, true), vec![3, 2, 1, 4, 7, 6, 5, 8, 0, 0, 0, 0]);
    assert_eq!(argb_frame(&rgba, 5, true), vec![3, 2, 1, 4, 0]);
    assert_eq!(argb_frame(&rgba, 8, false), vec![0; 8]);
}

#[test]
fn tray_commands() {
    assert_eq!(external_msg_for(TrayCmd::ShowPreferences), ExternalMsg::Show);
    assert_eq!(external_msg_for(TrayCmd::Quit), ExternalMsg::Quit);
}

#[test]
fn script_calls_and_ids() {
    assert!(matches!(reply_for_call("result", "{}".to_string()), Some(ScriptReply::Result(p)) if p == "{}"));
    assert!(matches!(reply_for_call("error", "boom".to_string()), Some(ScriptReply::Error(e)) if e == "boom"));
    assert!(reply_for_call("other", "x".to_string()).is_none());
    assert_eq!(loaded_script_id(7), Ok(7));
    assert_eq!(loaded_script_id(0), Ok(0));
    assert_eq!(loaded_script_id(-1), Err("loadScript returned -1".to_string()));
    assert_eq!(loaded_script_id(i32::MIN), Err("loadScript returned -2147483648".to_string()));
}
