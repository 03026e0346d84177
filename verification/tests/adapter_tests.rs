use y2skk::adapter::canvas::{blend_pixel, draw_filled_rect, draw_rect, fill_transparent, Canvas};
use y2skk::adapter::keys::{keysym_repeats, passthrough_should_commit, qt_key_to_keysym, qt_mods_to_x11, xkb_mods_to_skk};
use y2skk::adapter::repeat::{grace_ms, interval_ms, RepeatAction, RepeatKey, RepeatState};
use y2skk::adapter::xim::{candidate_label, clamp_to_screen};
use y2skk::ipc::dispatch::DispatchResult;
use y2skk::install::{gtk3_system_module_path, gtk4_system_module_path, qt6_system_plugin_path, Mode, Opts};
use y2skk::ipc::convert::key_event_from_raw;
use y2skk::ipc::keysym;
use y2skk::key::{Key, Modifiers};

fn canvas(w: i32, h: i32) -> Canvas {
    Canvas { pixels: vec![9u8; (w * h * 4) as usize], width: w, height: h }
}

fn px(c: &Canvas, row: i32, col: i32) -> [u8; 4] {
    let off = ((row * c.width + col) * 4) as usize;
    [c.pixels[off], c.pixels[off + 1], c.pixels[off + 2], c.pixels[off + 3]]
}

#[test]
fn qt_modifiers_and_keys() {
    assert_eq!(qt_mods_to_x11(0x02000000 | 0x04000000), 0x05);
    assert_eq!(qt_mods_to_x11(0x08000000 | 0x10000000), 0x48);
    assert_eq!(qt_key_to_keysym(0x41, 0), 'a' as u32);
    assert_eq!(qt_key_to_keysym(0x41, 0x02000000), 'A' as u32);
    assert_eq!(qt_key_to_keysym(0x01000020, 0), 0xFFE1);
    assert_eq!(qt_key_to_keysym(0x01000030 + 2, 0), keysym::F1_BASE + 2);
    assert_eq!(qt_key_to_keysym(0x01000004, 0), keysym::RETURN);
    assert_eq!(qt_key_to_keysym(0x3042, 0), 0x3042);
    // A modifier key press reaches the engine as a non-character key.
    assert_eq!(key_event_from_raw(qt_key_to_keysym(0x01000020, 0), 0, true).key, Key::Other(0xFFE1));
}

#[test]
fn xkb_modifiers_and_repeat() {
    assert_eq!(xkb_mods_to_skk(0x01, 0x04), 0x05);
    assert_eq!(xkb_mods_to_skk(0x08 | 0x40 | 0x02, 0), 0x48);
    assert_eq!(key_event_from_raw('j' as u32, xkb_mods_to_skk(0x04, 0), true).modifiers, Modifiers::ctrl());
    assert!(!keysym_repeats(0));
    assert!(!keysym_repeats(0xFFE1));
    assert!(!keysym_repeats(0xFF7F));
    assert!(!keysym_repeats(0xFF14));
    assert!(keysym_repeats('a' as u32));
}

#[test]
fn canvas_fill_and_rects() {
    let mut c = canvas(4, 3);
    fill_transparent(&mut c);
    assert!(c.pixels.iter().all(|b| *b == 0));

    let red = [0, 0, 0xFF, 0xFF];
    draw_filled_rect(&mut c, 3, 1, 5, 5, red);
    assert_eq!(px(&c, 1, 3), red);
    assert_eq!(px(&c, 2, 3), red);
    assert_eq!(px(&c, 0, 3), [0, 0, 0, 0]);
    assert_eq!(px(&c, 1, 2), [0, 0, 0, 0]);

    let mut c = canvas(4, 4);
    fill_transparent(&mut c);
    let grey = [0x80, 0x80, 0x80, 0xFF];
    draw_rect(&mut c, 0, 0, 4, 4, grey);
    assert_eq!(px(&c, 0, 2), grey);
    assert_eq!(px(&c, 3, 1), grey);
    assert_eq!(px(&c, 2, 0), grey);
    assert_eq!(px(&c, 1, 3), grey);
    assert_eq!(px(&c, 1, 1), [0, 0, 0, 0]);
    assert_eq!(px(&c, 2, 2), [0, 0, 0, 0]);
}

#[test]
fn blend_formula() {
    let mut dst = [10u8, 20, 30, 40];
    blend_pixel(&mut dst, [255, 0, 100, 0], 255);
    assert_eq!(dst, [255, 0, 100, 0xFF]);
    let mut dst = [10u8, 20, 30, 40];
    blend_pixel(&mut dst, [255, 0, 100, 0], 0);
    assert_eq!(dst, [10, 20, 30, 0xFF]);
    let mut dst = [0u8, 255, 0, 0];
    blend_pixel(&mut dst, [255, 0, 100, 0], 128);
    assert_eq!(dst, [(255 * 128 / 255) as u8, (255 * 127 / 255) as u8, (100 * 128 / 255) as u8, 0xFF]);
}

fn args(a: &[&str]) -> Vec<String> {
    a.iter().map(|s| s.to_string()).collect()
}

#[test]
fn install_options() {
    let o = Opts::parse(&args(&[])).unwrap();
    assert_eq!(o.mode, Mode::UserLocal);
    assert!(o.daemon && o.xim && o.gtk3 && o.gtk4 && o.qt6 && !o.wayland && o.gui && !o.restart);
    let w = Opts::parse(&args(&["--wayland"])).unwrap();
    assert!(w.wayland && !w.daemon && !w.xim && !w.gtk3 && !w.gtk4 && !w.qt6 && !w.gui);

    let o = Opts::parse(&args(&["--prefix", "/opt/pkg", "--daemon", "--restart"])).unwrap();
    assert_eq!(o.mode, Mode::Packaging("/opt/pkg".into()));
    assert!(o.mode.is_packaging());
    assert!(o.daemon && !o.xim && !o.gui && o.restart);

    assert_eq!(Opts::parse(&args(&["--system", "--prefix", "/x"])).err().unwrap(), "--system and --prefix cannot be used together");
    assert_eq!(Opts::parse(&args(&["--prefix"])).err().unwrap(), "--prefix requires a path");
    assert_eq!(Opts::parse(&args(&["--frob"])).err().unwrap(), "Unknown option: --frob");

    assert_eq!(Mode::UserLocal.daemon_prefix("/home/u"), "/home/u/.local");
    assert_eq!(Mode::System.daemon_prefix("/home/u"), "/usr/local");
    assert!(!Mode::System.is_packaging());
}

#[test]
fn system_module_paths() {
    assert_eq!(gtk3_system_module_path(None, None), "/usr/lib/gtk-3.0/3.0.0/immodules/im-y2skk.so");
    assert_eq!(gtk3_system_module_path(Some("/usr/lib64/"), Some("3.1.0")), "/usr/lib64/gtk-3.0/3.1.0/immodules/im-y2skk.so");
    assert_eq!(gtk4_system_module_path(None), "/usr/lib/gtk-4.0/immodules/libim-y2skk.so");
    assert_eq!(qt6_system_plugin_path(None), "/usr/lib/qt6/plugins/platforminputcontexts/libqy2skk-qt6-plugin.so");
}

fn pure_passthrough() -> DispatchResult {
    DispatchResult { consumed: false, force_passthrough: true }
}

#[test]
fn commits_unmodified_printable_press() {
    assert!(passthrough_should_commit(1, 0, &pure_passthrough()));
}

#[test]
fn ignores_key_release() {
    assert!(!passthrough_should_commit(0, 0, &pure_passthrough()));
}

#[test]
fn ignores_ctrl_and_alt() {
    assert!(!passthrough_should_commit(1, 1 << 2, &pure_passthrough()));
    assert!(!passthrough_should_commit(1, 1 << 3, &pure_passthrough()));
}

#[test]
fn ignores_consumed_result() {
    let consumed = DispatchResult { consumed: true, force_passthrough: false };
    assert!(!passthrough_should_commit(1, 0, &consumed));
}

#[test]
fn repeat_timing_follows_rate() {
    assert_eq!(interval_ms(25), 40);
    assert_eq!(interval_ms(0), 1000);
    assert_eq!(interval_ms(2000), 1);
    assert_eq!(grace_ms(25), 80);
    assert_eq!(grace_ms(1), 500);
    assert_eq!(grace_ms(100), 60);
    assert_eq!(grace_ms(0), 500);
}

#[test]
fn repeat_press_starts_timer_and_stray_press_is_ignored() {
    let mut st = RepeatState::new();
    let (go, acts) = st.key_event(30, true, 1000);
    assert!(go);
    assert!(acts.is_empty());
    let acts = st.after_key(30, 0x61, true, true, true);
    assert_eq!(acts, vec![RepeatAction::StartTimer { delay_ms: 500, interval_ms: 40 }]);
    assert_eq!(st.active, Some(RepeatKey { keycode: 30, keysym: 0x61, consumed: true }));
    // A second press of the held key without a pending stop is a stray.
    let (go, acts) = st.key_event(31, true, 1001);
    assert!(go && acts.is_empty());
    let (go, acts) = st.key_event(31, true, 1002);
    assert!(!go && acts.is_empty());
}

#[test]
fn repeat_release_defers_stop_until_grace_expires() {
    let mut st = RepeatState::new();
    st.key_event(30, true, 0);
    st.after_key(30, 0x61, false, true, true);
    let (go, acts) = st.key_event(30, false, 1000);
    assert!(!go && acts.is_empty());
    assert_eq!(st.stop_deadline_ms, Some(1080));
    assert!(st.expire(1079).is_empty());
    assert!(st.active.is_some());
    let acts = st.expire(1080);
    assert_eq!(acts, vec![RepeatAction::CancelTimer, RepeatAction::ReleaseToApp(30)]);
    assert!(st.active.is_none());
    assert!(st.stop_deadline_ms.is_none());
    assert!(!st.pressed.contains(&30));
}

#[test]
fn repeat_retap_during_grace_restarts() {
    let mut st = RepeatState::new();
    st.key_event(30, true, 0);
    st.after_key(30, 0x61, true, true, true);
    st.key_event(30, false, 1000);
    let (go, acts) = st.key_event(30, true, 1010);
    assert!(go);
    assert_eq!(acts, vec![RepeatAction::CancelTimer]);
    assert!(st.active.is_none());
    assert!(st.pressed.contains(&30));
}

#[test]
fn repeat_tick_reruns_consumed_and_cycles_passthrough() {
    let mut st = RepeatState::new();
    assert!(st.tick().is_empty());
    st.key_event(30, true, 0);
    st.after_key(30, 0x61, true, true, true);
    assert_eq!(st.tick(), vec![RepeatAction::RerunKey { keycode: 30, keysym: 0x61 }]);
    st.key_event(31, true, 0);
    st.after_key(31, 0x62, false, true, true);
    assert_eq!(st.tick(), vec![RepeatAction::ReleaseToApp(31), RepeatAction::PressToApp(31)]);
    // The first key was let go when the second one started repeating.
    assert!(!st.pressed.contains(&30));
}

#[test]
fn repeat_modifier_change_stops_and_rate_zero_disables() {
    let mut st = RepeatState::new();
    st.key_event(2, true, 0);
    st.after_key(2, 0x21, false, true, true);
    assert!(st.modifiers_changed(1, 1).is_empty());
    let acts = st.modifiers_changed(1, 0);
    assert_eq!(acts, vec![RepeatAction::CancelTimer, RepeatAction::ReleaseToApp(2)]);
    assert!(st.active.is_none());
    st.set_info(0, 300);
    st.key_event(3, true, 0);
    assert!(st.after_key(3, 0x33, true, true, true).is_empty());
    assert!(st.active.is_none());
    let (go, _) = st.key_event(9, false, 0);
    assert!(!go);
}

#[test]
fn xim_candidate_labels() {
    let keys: Vec<char> = "asd".chars().collect();
    assert_eq!(candidate_label(&keys, 0, "漢字"), "a: 漢字");
    assert_eq!(candidate_label(&keys, 1, "感じ;feeling"), "s: 感じ  ;feeling");
    assert_eq!(candidate_label(&keys, 2, "a;b;c"), "d: a  ;b;c");
    assert_eq!(candidate_label(&keys, 5, "幹事"), " : 幹事");
}

#[test]
fn xim_window_stays_on_screen() {
    assert_eq!(clamp_to_screen(100, 1920, 200), 100);
    assert_eq!(clamp_to_screen(1800, 1920, 200), 1718);
    assert_eq!(clamp_to_screen(-5, 1920, 200), 0);
    assert_eq!(clamp_to_screen(50, 100, 200), 0);
}
