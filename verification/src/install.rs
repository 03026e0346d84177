//! Options of the install helper (`cargo xtask install|uninstall`) and the
//! install paths it derives.

use vstd::prelude::*;

use crate::daemon::config::join_path;
use crate::text::{chars_of, concat, is_prefix, starts_with_chars, str_eq, string_from_chars};

verus! {

/// Where components are installed.
#[derive(Debug, Clone, PartialEq, Eq)]
pub enum Mode {
    /// Default: everything to ~/.local/, no sudo.
    UserLocal,
    /// --system: adapters to system paths (sudo); daemon to /usr/local/bin/.
    System,
    /// --prefix <path>: packaging, everything under prefix, no sudo.
    Packaging(String),
}

/// Parsed command-line options.
#[derive(Debug)]
pub struct Opts {
    pub mode: Mode,
    pub daemon: bool,
    pub xim: bool,
    pub gtk3: bool,
    pub gtk4: bool,
    pub qt6: bool,
    pub wayland: bool,
    pub gui: bool,
    /// Opt-in: restart installed user services.
    pub restart: bool,
}

impl Mode {
    pub fn is_packaging(&self) -> (r: bool)
        ensures
            r == (*self is Packaging),
    {
        match self {
            Mode::Packaging(_) => true,
            _ => false,
        }
    }

    /// The prefix the daemon is installed under: `~/.local`, `/usr/local`
    /// or the packaging prefix; `home` is the home directory.
    pub fn daemon_prefix(&self, home: &str) -> (r: String)
        ensures
            r@ == match *self {
                Mode::UserLocal => join_path(home@, ".local"@),
                Mode::System => "/usr/local"@,
                Mode::Packaging(p) => p@,
            },
    {
        match self {
            Mode::UserLocal => join_exec(home, ".local"),
            Mode::System => "/usr/local".to_owned(),
            Mode::Packaging(p) => p.clone(),
        }
    }
}

/// `rest` appended to the directory `dir`.
pub fn join_exec(dir: &str, rest: &str) -> (r: String)
    ensures
        r@ == join_path(dir@, rest@),
{
    let rc = crate::text::chars_of(rest);
    if rc.len() == 0 {
        return dir.to_owned();
    }
    let dc = crate::text::chars_of(dir);
    if dc.len() > 0 && dc[dc.len() - 1] == '/' {
        concat(dir, rest)
    } else {
        let with_sep = concat(dir, "/");
        proof {
            reveal_strlit("/");
        }
        concat(with_sep.as_str(), rest)
    }
}

/// The flags seen so far while reading the arguments.
pub struct Flags {
    pub system: bool,
    pub prefix: Option<Seq<char>>,
    pub daemon: bool,
    pub xim: bool,
    pub gtk3: bool,
    pub gtk4: bool,
    pub qt6: bool,
    pub wayland: bool,
    pub gui: bool,
    pub restart: bool,
    pub component: bool,
}

pub open spec fn no_flags() -> Flags {
    Flags {
        system: false,
        prefix: None,
        daemon: false,
        xim: false,
        gtk3: false,
        gtk4: false,
        qt6: false,
        wayland: false,
        gui: false,
        restart: false,
        component: false,
    }
}

/// Reads the arguments from `i` on into `f`, or the error message.
pub open spec fn read_args(args: Seq<Seq<char>>, i: int, f: Flags) -> Result<Flags, Seq<char>>
    decreases args.len() - i,
{
    if i < 0 || i >= args.len() {
        Ok(f)
    } else {
        let a = args[i];
        if a == "--system"@ {
            read_args(args, i + 1, Flags { system: true, ..f })
        } else if a == "--prefix"@ {
            if i + 1 < args.len() {
                read_args(args, i + 2, Flags { prefix: Some(args[i + 1]), ..f })
            } else {
                Err("--prefix requires a path"@)
            }
        } else if a == "--daemon"@ {
            read_args(args, i + 1, Flags { daemon: true, component: true, ..f })
        } else if a == "--xim"@ {
            read_args(args, i + 1, Flags { xim: true, component: true, ..f })
        } else if a == "--gtk3"@ {
            read_args(args, i + 1, Flags { gtk3: true, component: true, ..f })
        } else if a == "--gtk4"@ {
            read_args(args, i + 1, Flags { gtk4: true, component: true, ..f })
        } else if a == "--qt6"@ {
            read_args(args, i + 1, Flags { qt6: true, component: true, ..f })
        } else if a == "--wayland"@ {
            read_args(args, i + 1, Flags { wayland: true, component: true, ..f })
        } else if a == "--gui"@ {
            read_args(args, i + 1, Flags { gui: true, component: true, ..f })
        } else if a == "--restart"@ {
            read_args(args, i + 1, Flags { restart: true, ..f })
        } else {
            Err("Unknown option: "@ + a)
        }
    }
}

/// What the arguments mean: the flags read, every component but the
/// Wayland adapter (which is opt-in, `--wayland`) when none was named, and
/// the mode; or the error message.
pub open spec fn spec_parse(args: Seq<Seq<char>>) -> Result<Flags, Seq<char>> {
    match read_args(args, 0, no_flags()) {
        Err(e) => Err(e),
        Ok(f) => if f.system && f.prefix is Some {
            Err("--system and --prefix cannot be used together"@)
        } else if !f.component {
            Ok(Flags { daemon: true, xim: true, gtk3: true, gtk4: true, qt6: true, gui: true, ..f })
        } else {
            Ok(f)
        },
    }
}

/// Whether `o` holds the flags `f`.
pub open spec fn opts_match(o: Opts, f: Flags) -> bool {
    &&& (f.system ==> o.mode is System)
    &&& (!f.system && f.prefix is Some ==> (o.mode is Packaging && o.mode->Packaging_0@ == f.prefix->0))
    &&& (!f.system && f.prefix is None ==> o.mode is UserLocal)
    &&& o.daemon == f.daemon
    &&& o.xim == f.xim
    &&& o.gtk3 == f.gtk3
    &&& o.gtk4 == f.gtk4
    &&& o.qt6 == f.qt6
    &&& o.wayland == f.wayland
    &&& o.gui == f.gui
    &&& o.restart == f.restart
}

/// The flags read so far, as values.
struct ArgState {
    system: bool,
    prefix: Option<String>,
    daemon: bool,
    xim: bool,
    gtk3: bool,
    gtk4: bool,
    qt6: bool,
    wayland: bool,
    gui: bool,
    restart: bool,
    component: bool,
}

impl View for ArgState {
    type V = Flags;

    closed spec fn view(&self) -> Flags {
        Flags {
            system: self.system,
            prefix: crate::engine::opt_view(self.prefix),
            daemon: self.daemon,
            xim: self.xim,
            gtk3: self.gtk3,
            gtk4: self.gtk4,
            qt6: self.qt6,
            wayland: self.wayland,
            gui: self.gui,
            restart: self.restart,
            component: self.component,
        }
    }
}

/// Reads the argument at `i` into `st`; the index of the next argument, or
/// the error message.
fn read_one(args: &[String], i: usize, st: &mut ArgState) -> (r: Result<usize, String>)
    requires
        i < args@.len(),
    ensures
        match r {
            Ok(n) => i < n <= args@.len() && read_args(crate::dict::entry::strs_view(args@), i as int, old(st)@)
                == read_args(crate::dict::entry::strs_view(args@), n as int, final(st)@),
            Err(m) => read_args(crate::dict::entry::strs_view(args@), i as int, old(st)@) == Err::<Flags, Seq<char>>(m@),
        },
{
    let ghost av = crate::dict::entry::strs_view(args@);
    assert(av[i as int] == args@[i as int]@);
    let a = args[i].as_str();
    if str_eq(a, "--system") {
        st.system = true;
    } else if str_eq(a, "--prefix") {
        if i + 1 < args.len() {
            st.prefix = Some(args[i + 1].clone());
            assert(av[i + 1] == args@[i + 1]@);
            return Ok(i + 2);
        } else {
            return Err("--prefix requires a path".to_owned());
        }
    } else if str_eq(a, "--daemon") {
        st.daemon = true;
        st.component = true;
    } else if str_eq(a, "--xim") {
        st.xim = true;
        st.component = true;
    } else if str_eq(a, "--gtk3") {
        st.gtk3 = true;
        st.component = true;
    } else if str_eq(a, "--gtk4") {
        st.gtk4 = true;
        st.component = true;
    } else if str_eq(a, "--qt6") {
        st.qt6 = true;
        st.component = true;
    } else if str_eq(a, "--wayland") {
        st.wayland = true;
        st.component = true;
    } else if str_eq(a, "--gui") {
        st.gui = true;
        st.component = true;
    } else if str_eq(a, "--restart") {
        st.restart = true;
    } else {
        return Err(concat("Unknown option: ", a));
    }
    Ok(i + 1)
}

impl Opts {
    /// Parses the arguments after the subcommand.
    pub fn parse(args: &[String]) -> (r: Result<Opts, String>)
        ensures
            match spec_parse(crate::dict::entry::strs_view(args@)) {
                Ok(f) => r matches Ok(o) && opts_match(o, f),
                Err(e) => r matches Err(m) && m@ == e,
            },
    {
        let ghost av = crate::dict::entry::strs_view(args@);
        let mut st = ArgState {
            system: false,
            prefix: None,
            daemon: false,
            xim: false,
            gtk3: false,
            gtk4: false,
            qt6: false,
            wayland: false,
            gui: false,
            restart: false,
            component: false,
        };
        let mut i: usize = 0;
        while i < args.len()
            invariant
                i <= args.len(),
                av == crate::dict::entry::strs_view(args@),
                read_args(av, 0, no_flags()) == read_args(av, i as int, st@),
            decreases args.len() - i,
        {
            match read_one(args, i, &mut st) {
                Ok(n) => i = n,
                Err(m) => return Err(m),
            }
        }
        if st.system && st.prefix.is_some() {
            return Err("--system and --prefix cannot be used together".to_owned());
        }
        if !st.component {
            st.daemon = true;
            st.xim = true;
            st.gtk3 = true;
            st.gtk4 = true;
            st.qt6 = true;
            st.gui = true;
        }
        let mode = if st.system {
            Mode::System
        } else {
            match st.prefix {
                Some(p) => Mode::Packaging(p),
                None => Mode::UserLocal,
            }
        };
        Ok(Opts {
            mode,
            daemon: st.daemon,
            xim: st.xim,
            gtk3: st.gtk3,
            gtk4: st.gtk4,
            qt6: st.qt6,
            wayland: st.wayland,
            gui: st.gui,
            restart: st.restart,
        })
    }
}

/// The system GTK 3 IM module path under `libdir` (default `/usr/lib`) for
/// the GTK binary version `bin_ver` (default `3.0.0`).
pub fn gtk3_system_module_path(libdir: Option<&str>, bin_ver: Option<&str>) -> (r: String)
    ensures
        r@ == join_path(
            join_path(
                join_path(match libdir { Some(l) => l@, None => "/usr/lib"@ }, "gtk-3.0"@),
                match bin_ver { Some(b) => b@, None => "3.0.0"@ },
            ),
            "immodules/im-y2skk.so"@,
        ),
{
    let l = match libdir {
        Some(l) => l,
        None => "/usr/lib",
    };
    let b = match bin_ver {
        Some(b) => b,
        None => "3.0.0",
    };
    let p = join_exec(l, "gtk-3.0");
    let p = join_exec(p.as_str(), b);
    join_exec(p.as_str(), "immodules/im-y2skk.so")
}

/// The system GTK 4 IM module path under `libdir` (default `/usr/lib`).
pub fn gtk4_system_module_path(libdir: Option<&str>) -> (r: String)
    ensures
        r@ == join_path(
            join_path(match libdir { Some(l) => l@, None => "/usr/lib"@ }, "gtk-4.0"@),
            "immodules/libim-y2skk.so"@,
        ),
{
    let l = match libdir {
        Some(l) => l,
        None => "/usr/lib",
    };
    let p = join_exec(l, "gtk-4.0");
    join_exec(p.as_str(), "immodules/libim-y2skk.so")
}

/// The system Qt 6 input-context plugin path under the Qt plugin
/// directory `plugins` (default `/usr/lib/qt6/plugins`).
pub fn qt6_system_plugin_path(plugins: Option<&str>) -> (r: String)
    ensures
        r@ == join_path(
            match plugins { Some(p) => p@, None => "/usr/lib/qt6/plugins"@ },
            "platforminputcontexts/libqy2skk-qt6-plugin.so"@,
        ),
{
    let base = match plugins {
        Some(p) => p,
        None => "/usr/lib/qt6/plugins",
    };
    join_exec(base, "platforminputcontexts/libqy2skk-qt6-plugin.so")
}

// ── Install plan ─────────────────────────────────────────────────────────────

/// `x` alone when `b`, else nothing.
pub open spec fn when<T>(b: bool, x: T) -> Seq<T> {
    if b {
        seq![x]
    } else {
        Seq::empty()
    }
}

fn push_when<T>(v: &mut Vec<T>, b: bool, x: T)
    ensures
        final(v)@ == old(v)@ + when(b, x),
{
    if b {
        v.push(x);
    } else {
        assert(old(v)@ + when(b, x) =~= old(v)@);
    }
}

/// A component the helper builds and installs.
#[derive(Debug, Clone, Copy, PartialEq, Eq, Structural)]
pub enum Component {
    Daemon,
    /// The kana tables, installed with the daemon.
    Tables,
    Xim,
    Gtk3,
    Gtk4,
    Qt6,
    Wayland,
    Gui,
}

/// A user service or launcher set up after the components.
#[derive(Debug, Clone, Copy, PartialEq, Eq, Structural)]
pub enum SetupStep {
    DaemonService,
    DbusActivation,
    XimService,
    WaylandDesktop,
    GuiDesktop,
}

/// A user unit restarted with `--restart`.
#[derive(Debug, Clone, Copy, PartialEq, Eq, Structural)]
pub enum Unit {
    Daemon,
    Xim,
}

/// What the helper tells the user when it is done.
#[derive(Debug, Clone, Copy, PartialEq, Eq, Structural)]
pub enum Note {
    /// How to enable the services (daemon and/or XIM server).
    FirstTimeSetup,
    /// The environment variable that points GTK 3 at the user module cache.
    Gtk3Env,
    /// The environment variable that makes GIO scan the user GTK 4 modules.
    Gtk4Env,
    /// The environment variable that adds the user Qt plugin directory.
    Qt6Env,
    /// `--restart` has no effect in packaging mode.
    RestartIgnored,
}

/// The components to install, in order.
pub open spec fn spec_components(o: Opts) -> Seq<Component> {
    when(o.daemon, Component::Daemon) + when(o.daemon, Component::Tables) + when(o.xim, Component::Xim)
        + when(o.gtk3, Component::Gtk3) + when(o.gtk4, Component::Gtk4) + when(o.qt6, Component::Qt6)
        + when(o.wayland, Component::Wayland) + when(o.gui, Component::Gui)
}

/// The user services and launchers to set up; none in packaging mode.  The
/// settings launcher only when the settings program was installed.
pub open spec fn spec_setup(o: Opts, gui_installed: bool) -> Seq<SetupStep> {
    if o.mode is Packaging {
        Seq::empty()
    } else {
        when(o.daemon, SetupStep::DaemonService) + when(o.daemon, SetupStep::DbusActivation)
            + when(o.xim, SetupStep::XimService) + when(o.wayland, SetupStep::WaylandDesktop)
            + when(o.gui && gui_installed, SetupStep::GuiDesktop)
    }
}

/// The units restarted: only with `--restart`, never in packaging mode.
pub open spec fn spec_restart_units(o: Opts) -> Seq<Unit> {
    if o.restart && !(o.mode is Packaging) {
        when(o.daemon, Unit::Daemon) + when(o.xim, Unit::Xim)
    } else {
        Seq::empty()
    }
}

/// The closing notes; `restarted` tells whether a unit was restarted,
/// `gtk3_dev` and `gtk4_dev` whether GTK 3 and GTK 4 are installed.
pub open spec fn spec_notes(o: Opts, restarted: bool, gtk3_dev: bool, gtk4_dev: bool) -> Seq<Note> {
    match o.mode {
        Mode::Packaging(_) => when(o.restart, Note::RestartIgnored),
        _ => when((o.daemon || o.xim) && !restarted, Note::FirstTimeSetup) + (if o.mode is UserLocal {
            when(o.gtk3 && gtk3_dev, Note::Gtk3Env) + when(o.gtk4 && gtk4_dev, Note::Gtk4Env)
                + when(o.qt6, Note::Qt6Env)
        } else {
            Seq::empty()
        }),
    }
}

impl Unit {
    /// The systemd unit name.
    pub fn name(&self) -> (r: &'static str)
        ensures
            r@ == (match *self {
                Unit::Daemon => "y2skk-daemon"@,
                Unit::Xim => "y2skk-xim"@,
            }),
    {
        match self {
            Unit::Daemon => "y2skk-daemon",
            Unit::Xim => "y2skk-xim",
        }
    }
}

impl Opts {
    /// The components to install, in order.
    pub fn components(&self) -> (r: Vec<Component>)
        ensures
            r@ == spec_components(*self),
    {
        let mut v: Vec<Component> = Vec::new();
        push_when(&mut v, self.daemon, Component::Daemon);
        push_when(&mut v, self.daemon, Component::Tables);
        push_when(&mut v, self.xim, Component::Xim);
        push_when(&mut v, self.gtk3, Component::Gtk3);
        push_when(&mut v, self.gtk4, Component::Gtk4);
        push_when(&mut v, self.qt6, Component::Qt6);
        push_when(&mut v, self.wayland, Component::Wayland);
        push_when(&mut v, self.gui, Component::Gui);
        assert(v@ =~= spec_components(*self));
        v
    }

    /// The user services and launchers to set up once the components are
    /// installed (`gui_installed`: the settings program was built and
    /// installed).
    pub fn setup_steps(&self, gui_installed: bool) -> (r: Vec<SetupStep>)
        ensures
            r@ == spec_setup(*self, gui_installed),
    {
        let mut v: Vec<SetupStep> = Vec::new();
        if self.mode.is_packaging() {
            return v;
        }
        push_when(&mut v, self.daemon, SetupStep::DaemonService);
        push_when(&mut v, self.daemon, SetupStep::DbusActivation);
        push_when(&mut v, self.xim, SetupStep::XimService);
        push_when(&mut v, self.wayland, SetupStep::WaylandDesktop);
        push_when(&mut v, self.gui && gui_installed, SetupStep::GuiDesktop);
        assert(v@ =~= spec_setup(*self, gui_installed));
        v
    }

    /// The units to restart after installing.
    pub fn restart_units(&self) -> (r: Vec<Unit>)
        ensures
            r@ == spec_restart_units(*self),
    {
        let mut v: Vec<Unit> = Vec::new();
        if !self.restart || self.mode.is_packaging() {
            return v;
        }
        push_when(&mut v, self.daemon, Unit::Daemon);
        push_when(&mut v, self.xim, Unit::Xim);
        assert(v@ =~= spec_restart_units(*self));
        v
    }

    /// Whether a running Wayland adapter is stopped after installing, so
    /// that the compositor starts the new program; never in packaging mode.
    pub fn stops_wayland(&self) -> (r: bool)
        ensures
            r == (self.wayland && !(self.mode is Packaging)),
    {
        self.wayland && !self.mode.is_packaging()
    }

    /// The notes printed when the install is done.
    pub fn notes(&self, restarted: bool, gtk3_dev: bool, gtk4_dev: bool) -> (r: Vec<Note>)
        ensures
            r@ == spec_notes(*self, restarted, gtk3_dev, gtk4_dev),
    {
        let mut v: Vec<Note> = Vec::new();
        match &self.mode {
            Mode::Packaging(_) => {
                push_when(&mut v, self.restart, Note::RestartIgnored);
                assert(v@ =~= spec_notes(*self, restarted, gtk3_dev, gtk4_dev));
            },
            Mode::UserLocal => {
                push_when(&mut v, (self.daemon || self.xim) && !restarted, Note::FirstTimeSetup);
                push_when(&mut v, self.gtk3 && gtk3_dev, Note::Gtk3Env);
                push_when(&mut v, self.gtk4 && gtk4_dev, Note::Gtk4Env);
                push_when(&mut v, self.qt6, Note::Qt6Env);
                assert(v@ =~= spec_notes(*self, restarted, gtk3_dev, gtk4_dev));
            },
            Mode::System => {
                push_when(&mut v, (self.daemon || self.xim) && !restarted, Note::FirstTimeSetup);
                assert(v@ =~= spec_notes(*self, restarted, gtk3_dev, gtk4_dev));
            },
        }
        v
    }
}

/// An install in packaging mode leaves the user's environment alone: no
/// services or launchers are set up and no unit is restarted.
pub proof fn lemma_packaging_leaves_user_env(o: Opts, gui_installed: bool)
    requires
        o.mode is Packaging,
    ensures
        spec_setup(o, gui_installed).len() == 0,
        spec_restart_units(o).len() == 0,
{
}

// ── Uninstall plan ───────────────────────────────────────────────────────────

/// What the system reports about where GTK and Qt keep their modules
/// (`None` where it cannot tell).
pub struct SystemDirs {
    /// `pkg-config --variable=libdir gtk+-3.0`
    pub gtk3_libdir: Option<String>,
    /// `pkg-config --variable=gtk_binary_version gtk+-3.0`
    pub gtk3_bin_ver: Option<String>,
    /// `pkg-config --variable=libdir gtk4`
    pub gtk4_libdir: Option<String>,
    /// `qmake -query QT_INSTALL_PLUGINS`
    pub qt6_plugins: Option<String>,
}

/// An installed file or directory.
#[derive(Debug, Clone, Copy, PartialEq, Eq, Structural)]
pub enum Artifact {
    Daemon,
    Gtk3Module,
    Gtk4Module,
    Qt6Plugin,
    XimServer,
    WaylandAdapter,
    SettingsGui,
    SettingsLauncher,
    WaylandLauncher,
    WaylandAutostart,
    KanaTables,
    DaemonUnit,
    XimUnit,
    WaylandUnit,
    DbusActivation,
}

/// One removal of the uninstall: what, where, whether through `sudo`, and
/// whether a whole directory.
pub struct Removal {
    pub artifact: Artifact,
    pub path: String,
    pub as_root: bool,
    pub whole_dir: bool,
}

pub struct RemovalView {
    pub artifact: Artifact,
    pub path: Seq<char>,
    pub as_root: bool,
    pub whole_dir: bool,
}

impl View for Removal {
    type V = RemovalView;

    open spec fn view(&self) -> RemovalView {
        RemovalView { artifact: self.artifact, path: self.path@, as_root: self.as_root, whole_dir: self.whole_dir }
    }
}

pub open spec fn removals_view(v: Seq<Removal>) -> Seq<RemovalView> {
    v.map_values(|r: Removal| r@)
}

pub open spec fn or_default(o: Option<String>, d: Seq<char>) -> Seq<char> {
    match o {
        Some(s) => s@,
        None => d,
    }
}

/// `dir` with the path components of `parts` appended.
pub open spec fn under(dir: Seq<char>, parts: Seq<Seq<char>>) -> Seq<char>
    decreases parts.len(),
{
    if parts.len() == 0 {
        dir
    } else {
        join_path(under(dir, parts.drop_last()), parts.last())
    }
}

/// The GTK 3 module of a mode.
pub open spec fn gtk3_module_path(mode: Mode, home: Seq<char>, sys: SystemDirs) -> Seq<char> {
    let ver = or_default(sys.gtk3_bin_ver, "3.0.0"@);
    match mode {
        Mode::UserLocal => under(home, seq![".local/lib/gtk-3.0"@, ver, "immodules/im-y2skk.so"@]),
        Mode::System => under(or_default(sys.gtk3_libdir, "/usr/lib"@), seq!["gtk-3.0"@, ver, "immodules/im-y2skk.so"@]),
        Mode::Packaging(p) => under(p@, seq!["lib/gtk-3.0"@, ver, "immodules/im-y2skk.so"@]),
    }
}

/// The directory of the GTK 4 module of a mode.
pub open spec fn gtk4_module_dir(mode: Mode, home: Seq<char>, sys: SystemDirs) -> Seq<char> {
    match mode {
        Mode::UserLocal => under(home, seq![".local/lib/gtk-4.0/immodules"@]),
        Mode::System => under(or_default(sys.gtk4_libdir, "/usr/lib"@), seq!["gtk-4.0"@, "immodules"@]),
        Mode::Packaging(p) => under(p@, seq!["lib/gtk-4.0"@, "immodules"@]),
    }
}

/// The Qt 6 plugin of a mode.
pub open spec fn qt6_plugin_path(mode: Mode, home: Seq<char>, sys: SystemDirs) -> Seq<char> {
    match mode {
        Mode::UserLocal => under(home, seq![".local/lib/qt6/plugins/platforminputcontexts/libqy2skk-qt6-plugin.so"@]),
        Mode::System => under(
            or_default(sys.qt6_plugins, "/usr/lib/qt6/plugins"@),
            seq!["platforminputcontexts/libqy2skk-qt6-plugin.so"@],
        ),
        Mode::Packaging(p) => under(p@, seq!["lib/qt6/plugins/platforminputcontexts/libqy2skk-qt6-plugin.so"@]),
    }
}

pub open spec fn removal(a: Artifact, path: Seq<char>, as_root: bool, whole_dir: bool) -> RemovalView {
    RemovalView { artifact: a, path, as_root, whole_dir }
}

/// Everything the uninstall removes where present, in order.  Programs
/// under the mode's prefix; the GTK and Qt modules where the mode installs
/// them; the user units, launchers and D-Bus activation file always in the
/// home directory, except the settings launcher, which a packaging
/// uninstall leaves alone.  `sudo` for the GTK 4 module, the settings
/// program and the tables in system mode.
pub open spec fn spec_uninstall_plan(mode: Mode, home: Seq<char>, sys: SystemDirs) -> Seq<RemovalView> {
    let prefix = match mode {
        Mode::UserLocal => join_path(home, ".local"@),
        Mode::System => "/usr/local"@,
        Mode::Packaging(p) => p@,
    };
    let root = mode is System;
    seq![
        removal(Artifact::Daemon, join_path(prefix, "bin/y2skk-daemon"@), false, false),
        removal(Artifact::Gtk3Module, gtk3_module_path(mode, home, sys), false, false),
        removal(Artifact::Gtk4Module, join_path(gtk4_module_dir(mode, home, sys), "libim-y2skk.so"@), root, false),
        removal(Artifact::Qt6Plugin, qt6_plugin_path(mode, home, sys), false, false),
        removal(Artifact::XimServer, join_path(prefix, "bin/y2skk-xim"@), false, false),
        removal(Artifact::WaylandAdapter, join_path(prefix, "bin/y2skk-wayland"@), false, false),
        removal(Artifact::SettingsGui, join_path(prefix, "bin/y2skk-settings-qt6"@), root, false),
    ] + when(
        !(mode is Packaging),
        removal(Artifact::SettingsLauncher, join_path(home, ".local/share/applications/y2skk-settings-qt6.desktop"@), false, false),
    ) + seq![
        removal(Artifact::WaylandLauncher, join_path(home, ".local/share/applications/y2skk-wayland.desktop"@), false, false),
        removal(Artifact::WaylandAutostart, join_path(home, ".config/autostart/y2skk-wayland-activate.desktop"@), false, false),
        removal(Artifact::KanaTables, join_path(prefix, "share/y2skk/tables"@), root, true),
        removal(Artifact::DaemonUnit, under(home, seq![".config/systemd/user"@, "y2skk-daemon.service"@]), false, false),
        removal(Artifact::XimUnit, under(home, seq![".config/systemd/user"@, "y2skk-xim.service"@]), false, false),
        removal(Artifact::WaylandUnit, under(home, seq![".config/systemd/user"@, "y2skk-wayland.service"@]), false, false),
        removal(Artifact::DbusActivation, join_path(home, ".local/share/dbus-1/services/org.y2skk.Daemon.service"@), false, false),
    ]
}

/// What follows the removal of an artifact.
pub enum Followup {
    /// Remove the user GTK 3 module cache at this path, if present.
    RemoveGtk3Cache(String),
    /// Regenerate the GIO module cache of this directory (through `sudo`
    /// when the flag is set).
    RefreshGioCache(String, bool),
}

pub enum FollowupView {
    RemoveGtk3Cache(Seq<char>),
    RefreshGioCache(Seq<char>, bool),
}

impl View for Followup {
    type V = FollowupView;

    open spec fn view(&self) -> FollowupView {
        match self {
            Followup::RemoveGtk3Cache(p) => FollowupView::RemoveGtk3Cache(p@),
            Followup::RefreshGioCache(d, r) => FollowupView::RefreshGioCache(d@, *r),
        }
    }
}

/// After the GTK 3 module of a user install, its module cache goes too;
/// after a GTK 4 module (not in packaging mode), the GIO cache of its
/// directory is regenerated.
pub open spec fn spec_followup(mode: Mode, home: Seq<char>, sys: SystemDirs, a: Artifact) -> Option<FollowupView> {
    if a == Artifact::Gtk3Module && mode is UserLocal {
        Some(FollowupView::RemoveGtk3Cache(join_path(home, ".config/gtk-3.0/gtk.immodules"@)))
    } else if a == Artifact::Gtk4Module && !(mode is Packaging) {
        Some(FollowupView::RefreshGioCache(gtk4_module_dir(mode, home, sys), mode is System))
    } else {
        None
    }
}

fn opt_or<'a>(o: &'a Option<String>, d: &'a str) -> (r: &'a str)
    ensures
        r@ == or_default(*o, d@),
{
    match o {
        Some(s) => s.as_str(),
        None => d,
    }
}

proof fn lemma_under(dir: Seq<char>, a: Seq<char>, b: Seq<char>, c: Seq<char>)
    ensures
        under(dir, seq![a]) == join_path(dir, a),
        under(dir, seq![a, b]) == join_path(join_path(dir, a), b),
        under(dir, seq![a, b, c]) == join_path(join_path(join_path(dir, a), b), c),
{
    assert(seq![a].drop_last() =~= Seq::<Seq<char>>::empty());
    assert(seq![a, b].drop_last() =~= seq![a]);
    assert(seq![a, b, c].drop_last() =~= seq![a, b]);
    assert(under(dir, Seq::<Seq<char>>::empty()) == dir);
    assert(under(dir, seq![a]) == join_path(dir, a));
    assert(under(dir, seq![a, b]) == join_path(under(dir, seq![a]), b));
    assert(under(dir, seq![a, b, c]) == join_path(under(dir, seq![a, b]), c));
}

fn gtk4_dir_exec(mode: &Mode, home: &str, sys: &SystemDirs) -> (r: String)
    ensures
        r@ == gtk4_module_dir(*mode, home@, *sys),
{
    proof {
        lemma_under(home@, ".local/lib/gtk-4.0/immodules"@, ""@, ""@);
        lemma_under(or_default(sys.gtk4_libdir, "/usr/lib"@), "gtk-4.0"@, "immodules"@, ""@);
        if let Mode::Packaging(p) = mode {
            lemma_under(p@, "lib/gtk-4.0"@, "immodules"@, ""@);
        }
    }
    match mode {
        Mode::UserLocal => join_exec(home, ".local/lib/gtk-4.0/immodules"),
        Mode::System => {
            let d = join_exec(opt_or(&sys.gtk4_libdir, "/usr/lib"), "gtk-4.0");
            join_exec(d.as_str(), "immodules")
        },
        Mode::Packaging(p) => {
            let d = join_exec(p.as_str(), "lib/gtk-4.0");
            join_exec(d.as_str(), "immodules")
        },
    }
}

/// What to do after removing `a` (see [`spec_followup`]).
pub fn followup(mode: &Mode, home: &str, sys: &SystemDirs, a: Artifact) -> (r: Option<Followup>)
    ensures
        match r {
            Some(f) => spec_followup(*mode, home@, *sys, a) == Some(f@),
            None => spec_followup(*mode, home@, *sys, a) is None,
        },
{
    let user = match mode {
        Mode::UserLocal => true,
        _ => false,
    };
    let system = match mode {
        Mode::System => true,
        _ => false,
    };
    if a == Artifact::Gtk3Module && user {
        Some(Followup::RemoveGtk3Cache(join_exec(home, ".config/gtk-3.0/gtk.immodules")))
    } else if a == Artifact::Gtk4Module && !mode.is_packaging() {
        Some(Followup::RefreshGioCache(gtk4_dir_exec(mode, home, sys), system))
    } else {
        None
    }
}

/// Whether `a` is a user systemd unit (whose removal calls for a reload of
/// the user units).
pub fn is_user_unit(a: Artifact) -> (r: bool)
    ensures
        r == (a == Artifact::DaemonUnit || a == Artifact::XimUnit || a == Artifact::WaylandUnit),
{
    a == Artifact::DaemonUnit || a == Artifact::XimUnit || a == Artifact::WaylandUnit
}

fn rm(a: Artifact, path: String, as_root: bool, whole_dir: bool) -> (r: Removal)
    ensures
        r@ == removal(a, path@, as_root, whole_dir),
{
    Removal { artifact: a, path, as_root, whole_dir }
}

/// The removals of an uninstall (see [`spec_uninstall_plan`]); `home` is
/// the home directory.
pub fn uninstall_plan(mode: &Mode, home: &str, sys: &SystemDirs) -> (r: Vec<Removal>)
    ensures
        removals_view(r@) == spec_uninstall_plan(*mode, home@, *sys),
{
    let prefix = mode.daemon_prefix(home);
    let p = prefix.as_str();
    let root = match mode {
        Mode::System => true,
        _ => false,
    };
    let ver = opt_or(&sys.gtk3_bin_ver, "3.0.0");
    proof {
        lemma_under(home@, ".local/lib/gtk-3.0"@, ver@, "immodules/im-y2skk.so"@);
        lemma_under(or_default(sys.gtk3_libdir, "/usr/lib"@), "gtk-3.0"@, ver@, "immodules/im-y2skk.so"@);
        lemma_under(home@, ".local/lib/qt6/plugins/platforminputcontexts/libqy2skk-qt6-plugin.so"@, ""@, ""@);
        lemma_under(or_default(sys.qt6_plugins, "/usr/lib/qt6/plugins"@), "platforminputcontexts/libqy2skk-qt6-plugin.so"@, ""@, ""@);
        lemma_under(home@, ".config/systemd/user"@, "y2skk-daemon.service"@, ""@);
        lemma_under(home@, ".config/systemd/user"@, "y2skk-xim.service"@, ""@);
        lemma_under(home@, ".config/systemd/user"@, "y2skk-wayland.service"@, ""@);
        if let Mode::Packaging(pp) = mode {
            lemma_under(pp@, "lib/gtk-3.0"@, ver@, "immodules/im-y2skk.so"@);
            lemma_under(pp@, "lib/qt6/plugins/platforminputcontexts/libqy2skk-qt6-plugin.so"@, ""@, ""@);
        }
    }
    let gtk3 = match mode {
        Mode::UserLocal => {
            let d = join_exec(home, ".local/lib/gtk-3.0");
            let d = join_exec(d.as_str(), ver);
            join_exec(d.as_str(), "immodules/im-y2skk.so")
        },
        Mode::System => gtk3_system_module_path(
            match &sys.gtk3_libdir {
                Some(l) => Some(l.as_str()),
                None => None,
            },
            Some(ver),
        ),
        Mode::Packaging(pp) => {
            let d = join_exec(pp.as_str(), "lib/gtk-3.0");
            let d = join_exec(d.as_str(), ver);
            join_exec(d.as_str(), "immodules/im-y2skk.so")
        },
    };
    let gtk4_dir = gtk4_dir_exec(mode, home, sys);
    let qt6 = match mode {
        Mode::UserLocal => join_exec(home, ".local/lib/qt6/plugins/platforminputcontexts/libqy2skk-qt6-plugin.so"),
        Mode::System => qt6_system_plugin_path(
            match &sys.qt6_plugins {
                Some(q) => Some(q.as_str()),
                None => None,
            },
        ),
        Mode::Packaging(pp) => join_exec(pp.as_str(), "lib/qt6/plugins/platforminputcontexts/libqy2skk-qt6-plugin.so"),
    };
    let mut v: Vec<Removal> = Vec::new();
    v.push(rm(Artifact::Daemon, join_exec(p, "bin/y2skk-daemon"), false, false));
    v.push(rm(Artifact::Gtk3Module, gtk3, false, false));
    v.push(rm(Artifact::Gtk4Module, join_exec(gtk4_dir.as_str(), "libim-y2skk.so"), root, false));
    v.push(rm(Artifact::Qt6Plugin, qt6, false, false));
    v.push(rm(Artifact::XimServer, join_exec(p, "bin/y2skk-xim"), false, false));
    v.push(rm(Artifact::WaylandAdapter, join_exec(p, "bin/y2skk-wayland"), false, false));
    v.push(rm(Artifact::SettingsGui, join_exec(p, "bin/y2skk-settings-qt6"), root, false));
    let ghost head = removals_view(v@);
    if !mode.is_packaging() {
        v.push(rm(
            Artifact::SettingsLauncher,
            join_exec(home, ".local/share/applications/y2skk-settings-qt6.desktop"),
            false,
            false,
        ));
    }
    let ghost mid = removals_view(v@);
    v.push(rm(Artifact::WaylandLauncher, join_exec(home, ".local/share/applications/y2skk-wayland.desktop"), false, false));
    v.push(rm(Artifact::WaylandAutostart, join_exec(home, ".config/autostart/y2skk-wayland-activate.desktop"), false, false));
    v.push(rm(Artifact::KanaTables, join_exec(p, "share/y2skk/tables"), root, true));
    let units = join_exec(home, ".config/systemd/user");
    v.push(rm(Artifact::DaemonUnit, join_exec(units.as_str(), "y2skk-daemon.service"), false, false));
    v.push(rm(Artifact::XimUnit, join_exec(units.as_str(), "y2skk-xim.service"), false, false));
    v.push(rm(Artifact::WaylandUnit, join_exec(units.as_str(), "y2skk-wayland.service"), false, false));
    v.push(rm(Artifact::DbusActivation, join_exec(home, ".local/share/dbus-1/services/org.y2skk.Daemon.service"), false, false));
    assert(removals_view(v@) =~= spec_uninstall_plan(*mode, home@, *sys));
    v
}

/// Whether what `qmake -query` printed (trimmed) names a directory: it is
/// neither empty nor `**Unknown**`.
pub fn qmake_value_usable(v: &str) -> (r: bool)
    ensures
        r == (v@.len() > 0 && v@ != "**Unknown**"@),
{
    let n = char_count(v);
    n > 0 && !str_eq(v, "**Unknown**")
}

fn char_count(v: &str) -> (n: usize)
    ensures
        (n == 0) == (v@.len() == 0),
{
    let cs = chars_of(v);
    cs.len()
}

// ── Templates ────────────────────────────────────────────────────────────────

/// `s` with every occurrence of `pat` replaced by `rep`, scanning from the
/// left and resuming after each replaced occurrence (`str::replace`).
pub open spec fn spec_replace(s: Seq<char>, pat: Seq<char>, rep: Seq<char>) -> Seq<char>
    recommends
        pat.len() > 0,
    decreases s.len(),
{
    if s.len() == 0 || pat.len() == 0 {
        s
    } else if is_prefix(pat, s) {
        rep + spec_replace(s.skip(pat.len() as int), pat, rep)
    } else {
        seq![s[0]] + spec_replace(s.skip(1), pat, rep)
    }
}

/// Fills a placeholder of an installed file's template (`str::replace`).
pub fn replace_all(s: &str, pat: &str, rep: &str) -> (r: String)
    requires
        pat@.len() > 0,
    ensures
        r@ == spec_replace(s@, pat@, rep@),
{
    let cs = chars_of(s);
    let ps = chars_of(pat);
    let rs = chars_of(rep);
    let mut out: Vec<char> = Vec::new();
    let mut i: usize = 0;
    assert(cs@.skip(0) =~= cs@);
    assert(out@ + spec_replace(cs@, ps@, rs@) =~= spec_replace(cs@, ps@, rs@));
    while i < cs.len()
        invariant
            i <= cs.len(),
            cs@ == s@,
            ps@ == pat@,
            rs@ == rep@,
            ps@.len() > 0,
            out@ + spec_replace(cs@.skip(i as int), ps@, rs@) == spec_replace(cs@, ps@, rs@),
        decreases cs.len() - i,
    {
        let rest = slice_from(&cs, i);
        if starts_with_chars(rest.as_slice(), ps.as_slice()) {
            let ghost before = out@;
            let mut k: usize = 0;
            while k < rs.len()
                invariant
                    k <= rs.len(),
                    out@ == before + rs@.take(k as int),
                decreases rs.len() - k,
            {
                out.push(rs[k]);
                assert(rs@.take(k + 1) =~= rs@.take(k as int).push(rs@[k as int]));
                k += 1;
            }
            assert(rs@.take(rs.len() as int) =~= rs@);
            assert(cs@.skip(i as int).skip(ps.len() as int) =~= cs@.skip(i + ps.len()));
            assert(before + (rs@ + spec_replace(cs@.skip(i + ps.len()), ps@, rs@)) =~= out@ + spec_replace(cs@.skip(i + ps.len()), ps@, rs@));
            i = i + ps.len();
        } else {
            let ghost before = out@;
            out.push(cs[i]);
            assert(cs@.skip(i as int).skip(1) =~= cs@.skip(i + 1));
            assert(cs@.skip(i as int)[0] == cs@[i as int]);
            assert(before + (seq![cs@[i as int]] + spec_replace(cs@.skip(i + 1), ps@, rs@)) =~= out@ + spec_replace(cs@.skip(i + 1), ps@, rs@));
            i += 1;
        }
    }
    assert(cs@.skip(cs.len() as int) =~= Seq::<char>::empty());
    assert(out@ + Seq::<char>::empty() =~= out@);
    string_from_chars(out.as_slice())
}

fn slice_from(v: &Vec<char>, from: usize) -> (r: Vec<char>)
    requires
        from <= v.len(),
    ensures
        r@ == v@.skip(from as int),
{
    let mut r: Vec<char> = Vec::new();
    let mut j: usize = from;
    while j < v.len()
        invariant
            from <= j <= v.len(),
            r@ == v@.subrange(from as int, j as int),
        decreases v.len() - j,
    {
        r.push(v[j]);
        assert(v@.subrange(from as int, j + 1) =~= v@.subrange(from as int, j as int).push(v@[j as int]));
        j += 1;
    }
    assert(v@.subrange(from as int, v.len() as int) =~= v@.skip(from as int));
    r
}

/// How a character of a path is written inside the quoted `Exec` value of
/// a desktop entry: `\` and `"` behind a backslash, `%` doubled.
pub open spec fn exec_escape(c: char) -> Seq<char> {
    if c == '\\' {
        seq!['\\', '\\']
    } else if c == '"' {
        seq!['\\', '"']
    } else if c == '%' {
        seq!['%', '%']
    } else {
        seq![c]
    }
}

pub open spec fn exec_escaped(s: Seq<char>) -> Seq<char>
    decreases s.len(),
{
    if s.len() == 0 {
        Seq::empty()
    } else {
        exec_escaped(s.drop_last()) + exec_escape(s.last())
    }
}

/// The quoted `Exec` value of a desktop entry that runs `path`.
pub fn desktop_exec_value(path: &str) -> (r: String)
    ensures
        r@ == seq!['"'] + exec_escaped(path@) + seq!['"'],
{
    let cs = chars_of(path);
    let mut out: Vec<char> = Vec::new();
    out.push('"');
    let mut i: usize = 0;
    while i < cs.len()
        invariant
            i <= cs.len(),
            cs@ == path@,
            out@ == seq!['"'] + exec_escaped(cs@.take(i as int)),
        decreases cs.len() - i,
    {
        let c = cs[i];
        let ghost before = out@;
        if c == '\\' || c == '"' {
            out.push('\\');
            out.push(c);
        } else if c == '%' {
            out.push('%');
            out.push('%');
        } else {
            out.push(c);
        }
        assert(cs@.take(i + 1).drop_last() =~= cs@.take(i as int));
        assert(out@ =~= before + exec_escape(c));
        i += 1;
    }
    out.push('"');
    assert(cs@.take(cs.len() as int) =~= cs@);
    string_from_chars(out.as_slice())
}

} // verus!
