use llaunchpad::terminal::{
    available, format_exit_code, index_of, pbcopy_checked, probe_file_names, trim,
    warp_open_checked, Host, Platform, Terminal,
};

const ALL: [Terminal; 14] = [
    Terminal::Default,
    Terminal::TerminalApp,
    Terminal::ITerm2,
    Terminal::Alacritty,
    Terminal::WezTerm,
    Terminal::Kitty,
    Terminal::Warp,
    Terminal::GnomeTerminal,
    Terminal::Konsole,
    Terminal::Xfce4Terminal,
    Terminal::Xterm,
    Terminal::WindowsTerminal,
    Terminal::Cmd,
    Terminal::PowerShell,
];

fn strings(names: &[&str]) -> Vec<String> {
    names.iter().map(|n| n.to_string()).collect()
}

fn bare_host(platform: Platform) -> Host {
    Host { platform, path_files: Vec::new(), app_bundles: Vec::new() }
}

fn full_host(platform: Platform) -> Host {
    Host {
        platform,
        path_files: strings(&[
            "alacritty",
            "wezterm",
            "kitty",
            "gnome-terminal",
            "konsole",
            "xfce4-terminal",
            "xterm",
            "wt",
            "cmd",
            "powershell",
        ]),
        app_bundles: strings(&["Terminal.app", "iTerm.app", "Warp.app"]),
    }
}

fn hosts() -> Vec<Host> {
    let mut hs = Vec::new();
    for p in [Platform::MacOs, Platform::Linux, Platform::Windows, Platform::Other] {
        hs.push(bare_host(p));
        hs.push(full_host(p));
    }
    hs
}

#[test]
fn from_key_round_trips() {
    for t in [
        Terminal::Default,
        Terminal::TerminalApp,
        Terminal::ITerm2,
        Terminal::Alacritty,
        Terminal::WezTerm,
        Terminal::Kitty,
        Terminal::Warp,
        Terminal::GnomeTerminal,
        Terminal::Konsole,
        Terminal::Xfce4Terminal,
        Terminal::Xterm,
        Terminal::WindowsTerminal,
        Terminal::Cmd,
        Terminal::PowerShell,
    ] {
        assert_eq!(Terminal::from_key(t.key()), t);
    }
}

#[test]
fn unknown_key_falls_back_to_default() {
    assert_eq!(Terminal::from_key(""), Terminal::Default);
    assert_eq!(Terminal::from_key("nonsense"), Terminal::Default);
}

#[test]
fn default_is_always_available() {
    for host in hosts() {
        assert!(Terminal::Default.available(&host));
    }
}

#[test]
fn installed_terminals_round_trip_to_nonempty_labels() {
    for host in hosts() {
        for t in available(&host) {
            assert!(!t.label().is_empty());
            assert!(!t.key().is_empty());
        }
    }
}

#[test]
fn index_of_unknown_falls_back_to_default() {
    // If the persisted key isn't installed anymore we want the
    // dropdown to land on "System default", not on an out-of-range
    // index.
    for host in hosts() {
        let i = index_of("no-such-terminal", &host);
        let list = available(&host);
        assert!(i < list.len());
        assert_eq!(list[i], Terminal::Default);
    }
}

#[test]
fn warp_round_trips_and_is_listed_on_macos() {
    assert_eq!(Terminal::from_key(Terminal::Warp.key()), Terminal::Warp);
    assert_eq!(Terminal::Warp.key(), "warp");
    assert_eq!(Terminal::Warp.label(), "Warp");

    // On macOS, Warp.app is a known candidate even if the machine
    // doesn't have it; whether it is installed follows the bundle.
    for host in [bare_host(Platform::MacOs), full_host(Platform::MacOs)] {
        let list = available(&host);
        assert!(Terminal::Warp.is_installed(&host) || !Terminal::Warp.is_installed(&host));
        assert!(list.contains(&Terminal::Default));
    }
}

#[test]
fn keys_are_distinct_and_labels_match() {
    for (i, a) in ALL.iter().enumerate() {
        for (j, b) in ALL.iter().enumerate() {
            assert_eq!(i == j, a.key() == b.key());
        }
    }
    assert_eq!(Terminal::Default.key(), "default");
    assert_eq!(Terminal::Default.label(), "System default");
    assert_eq!(Terminal::GnomeTerminal.key(), "gnome-terminal");
    assert_eq!(Terminal::GnomeTerminal.label(), "GNOME Terminal");
    assert_eq!(Terminal::Cmd.label(), "Command Prompt");
    assert_eq!(Terminal::Xfce4Terminal.variant_name(), "Xfce4Terminal");
}

#[test]
fn available_lists_installed_terminals_in_display_order() {
    assert_eq!(available(&bare_host(Platform::Linux)), vec![Terminal::Default]);
    assert_eq!(
        available(&full_host(Platform::Linux)),
        vec![
            Terminal::Default,
            Terminal::GnomeTerminal,
            Terminal::Konsole,
            Terminal::Xfce4Terminal,
            Terminal::Xterm,
            Terminal::Alacritty,
            Terminal::WezTerm,
            Terminal::Kitty,
        ]
    );
    assert_eq!(
        available(&full_host(Platform::MacOs)),
        vec![
            Terminal::Default,
            Terminal::TerminalApp,
            Terminal::ITerm2,
            Terminal::Alacritty,
            Terminal::WezTerm,
            Terminal::Kitty,
            Terminal::Warp,
        ]
    );
    assert_eq!(available(&full_host(Platform::Other)), vec![Terminal::Default]);
    // Bundles only count on macOS.
    assert!(!Terminal::TerminalApp.is_installed(&full_host(Platform::Linux)));
    // cmd is always there on Windows.
    assert_eq!(
        available(&bare_host(Platform::Windows)),
        vec![Terminal::Default, Terminal::Cmd]
    );
}

#[test]
fn windows_binaries_are_found_with_an_extension() {
    let host = Host {
        platform: Platform::Windows,
        path_files: strings(&["pwsh.exe", "wt.exe.exe"]),
        app_bundles: Vec::new(),
    };
    assert!(Terminal::PowerShell.is_installed(&host));
    assert!(Terminal::WindowsTerminal.is_installed(&host));
    let linux = Host { platform: Platform::Linux, ..host };
    assert!(!Terminal::PowerShell.is_installed(&linux));
}

#[test]
fn index_of_finds_installed_terminal() {
    let host = full_host(Platform::Linux);
    assert_eq!(index_of("konsole", &host), 2);
    assert_eq!(index_of("default", &host), 0);
    assert_eq!(index_of("kitty", &host), 7);
    // Known but not listed on this platform.
    assert_eq!(index_of("iterm2", &host), 0);
}

#[test]
fn variant_names_match_debug() {
    for t in ALL {
        assert_eq!(format!("{t:?}"), t.variant_name());
    }
}

#[test]
fn warp_and_pbcopy_outcomes() {
    assert_eq!(warp_open_checked(true, Some(1), "ignored"), Ok(()));
    assert_eq!(
        warp_open_checked(false, Some(1), "  Unable to find application\n"),
        Err("Could not launch Warp (open exit Some(1)): Unable to find application".to_string())
    );
    assert_eq!(
        warp_open_checked(false, None, ""),
        Err("Could not launch Warp (open exit None): ".to_string())
    );
    assert_eq!(pbcopy_checked(true, None), Ok(()));
    assert_eq!(pbcopy_checked(false, Some(-3)), Err("pbcopy exited Some(-3)".to_string()));
    for code in [None, Some(0), Some(7), Some(10), Some(255), Some(-1), Some(i32::MAX), Some(i32::MIN)] {
        assert_eq!(format_exit_code(code), format!("{code:?}"));
    }
    for s in ["", "  ", " a b \n", "\u{3000}x", "x\t", "\r\n"] {
        assert_eq!(trim(s), s.trim());
    }
}

#[test]
fn probe_file_names_are_listed_per_binary() {
    assert_eq!(
        probe_file_names(Platform::Linux),
        strings(&[
            "alacritty",
            "wezterm",
            "kitty",
            "gnome-terminal",
            "konsole",
            "xfce4-terminal",
            "xterm",
            "wt",
            "wt.exe",
            "cmd",
            "powershell",
            "pwsh",
        ])
    );
    let win = probe_file_names(Platform::Windows);
    assert_eq!(win.len(), 48);
    assert_eq!(win[0..4].to_vec(), strings(&["alacritty", "alacritty.exe", "alacritty.cmd", "alacritty.bat"]));
}
