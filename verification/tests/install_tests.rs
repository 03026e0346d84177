use y2skk::install::{
    desktop_exec_value, followup, is_user_unit, qmake_value_usable, replace_all, uninstall_plan, Artifact, Component, Followup, Mode, Note, Opts, SetupStep, SystemDirs,
    Unit,
};

fn opts(args: &[&str]) -> Opts {
    let v: Vec<String> = args.iter().map(|s| s.to_string()).collect();
    Opts::parse(&v).unwrap()
}

fn no_dirs() -> SystemDirs {
    SystemDirs { gtk3_libdir: None, gtk3_bin_ver: None, gtk4_libdir: None, qt6_plugins: None }
}

#[test]
fn install_everything_but_wayland_by_default() {
    let o = opts(&[]);
    assert_eq!(
        o.components(),
        vec![
            Component::Daemon,
            Component::Tables,
            Component::Xim,
            Component::Gtk3,
            Component::Gtk4,
            Component::Qt6,
            Component::Gui
        ]
    );
    assert_eq!(
        o.setup_steps(true),
        vec![SetupStep::DaemonService, SetupStep::DbusActivation, SetupStep::XimService, SetupStep::GuiDesktop]
    );
    assert_eq!(o.setup_steps(false).len(), 3);
    assert!(o.restart_units().is_empty());
    assert!(!o.stops_wayland());
    let w = opts(&["--wayland"]);
    assert_eq!(w.components(), vec![Component::Wayland]);
    assert!(w.stops_wayland());
}

#[test]
fn install_one_component_with_restart() {
    let o = opts(&["--xim", "--restart"]);
    assert_eq!(o.components(), vec![Component::Xim]);
    assert_eq!(o.setup_steps(false), vec![SetupStep::XimService]);
    assert_eq!(o.restart_units(), vec![Unit::Xim]);
    assert_eq!(o.restart_units()[0].name(), "y2skk-xim");
    assert!(!o.stops_wayland());
    assert!(o.notes(true, true, true).is_empty());
    assert_eq!(o.notes(false, true, true), vec![Note::FirstTimeSetup]);
}

#[test]
fn packaging_install_leaves_the_user_alone() {
    let o = opts(&["--prefix", "/tmp/pkg", "--restart"]);
    assert!(o.setup_steps(true).is_empty());
    assert!(o.restart_units().is_empty());
    assert!(!o.stops_wayland());
    assert_eq!(o.notes(false, true, true), vec![Note::RestartIgnored]);
}

#[test]
fn user_local_notes_name_the_environment() {
    let o = opts(&["--gtk3", "--gtk4", "--qt6"]);
    assert_eq!(o.notes(false, true, false), vec![Note::Gtk3Env, Note::Qt6Env]);
    let s = opts(&["--system", "--gtk3", "--daemon"]);
    assert_eq!(s.notes(false, true, true), vec![Note::FirstTimeSetup]);
}

#[test]
fn uninstall_plan_user_local() {
    let plan = uninstall_plan(&Mode::UserLocal, "/home/u", &no_dirs());
    let paths: Vec<&str> = plan.iter().map(|r| r.path.as_str()).collect();
    assert_eq!(paths[0], "/home/u/.local/bin/y2skk-daemon");
    assert_eq!(paths[1], "/home/u/.local/lib/gtk-3.0/3.0.0/immodules/im-y2skk.so");
    assert_eq!(paths[2], "/home/u/.local/lib/gtk-4.0/immodules/libim-y2skk.so");
    assert!(paths.contains(&"/home/u/.local/share/applications/y2skk-settings-qt6.desktop"));
    assert!(paths.contains(&"/home/u/.config/systemd/user/y2skk-daemon.service"));
    assert!(plan.iter().all(|r| !r.as_root));
    let tables = plan.iter().find(|r| r.artifact == Artifact::KanaTables).unwrap();
    assert!(tables.whole_dir);
    assert_eq!(tables.path, "/home/u/.local/share/y2skk/tables");
}

#[test]
fn uninstall_plan_system_and_packaging() {
    let dirs = SystemDirs {
        gtk3_libdir: Some("/usr/lib64".to_string()),
        gtk3_bin_ver: Some("3.0.0".to_string()),
        gtk4_libdir: Some("/usr/lib64".to_string()),
        qt6_plugins: None,
    };
    let plan = uninstall_plan(&Mode::System, "/home/u", &dirs);
    assert_eq!(plan[0].path, "/usr/local/bin/y2skk-daemon");
    assert_eq!(plan[1].path, "/usr/lib64/gtk-3.0/3.0.0/immodules/im-y2skk.so");
    assert_eq!(plan[2].path, "/usr/lib64/gtk-4.0/immodules/libim-y2skk.so");
    assert!(plan[2].as_root);
    assert_eq!(plan[3].path, "/usr/lib/qt6/plugins/platforminputcontexts/libqy2skk-qt6-plugin.so");

    let pkg = uninstall_plan(&Mode::Packaging("/tmp/pkg".to_string()), "/home/u", &no_dirs());
    assert_eq!(pkg[0].path, "/tmp/pkg/bin/y2skk-daemon");
    assert!(pkg.iter().all(|r| r.artifact != Artifact::SettingsLauncher));
    assert_eq!(pkg.len() + 1, plan.len());
}

#[test]
fn uninstall_followups() {
    match followup(&Mode::UserLocal, "/home/u", &no_dirs(), Artifact::Gtk3Module) {
        Some(Followup::RemoveGtk3Cache(p)) => assert_eq!(p, "/home/u/.config/gtk-3.0/gtk.immodules"),
        _ => panic!("expected the GTK 3 cache"),
    }
    match followup(&Mode::System, "/home/u", &no_dirs(), Artifact::Gtk4Module) {
        Some(Followup::RefreshGioCache(d, root)) => {
            assert_eq!(d, "/usr/lib/gtk-4.0/immodules");
            assert!(root);
        }
        _ => panic!("expected the GIO cache"),
    }
    assert!(followup(&Mode::System, "/home/u", &no_dirs(), Artifact::Gtk3Module).is_none());
    assert!(followup(&Mode::Packaging("/p".to_string()), "/home/u", &no_dirs(), Artifact::Gtk4Module).is_none());
    assert!(is_user_unit(Artifact::WaylandUnit));
    assert!(!is_user_unit(Artifact::DbusActivation));
}

#[test]
fn templates_are_filled() {
    assert_eq!(
        replace_all("ExecStart=%h/.cargo/bin/y2skk-daemon\n", "%h/.cargo/bin/y2skk-daemon", "/usr/local/bin/y2skk-daemon"),
        "ExecStart=/usr/local/bin/y2skk-daemon\n"
    );
    assert_eq!(replace_all("aXbXXc", "X", "--"), "a--b----c");
    assert_eq!(replace_all("aaaa", "aa", "b"), "bb");
    assert_eq!(replace_all("no match", "%P%", "x"), "no match");
    assert_eq!(desktop_exec_value("/opt/my apps/y2skk"), "\"/opt/my apps/y2skk\"");
    assert_eq!(desktop_exec_value("/a\\b\"c%d"), "\"/a\\\\b\\\"c%%d\"");
    assert!(qmake_value_usable("/usr/lib/qt6/plugins"));
    assert!(!qmake_value_usable("**Unknown**"));
    assert!(!qmake_value_usable(""));
}
