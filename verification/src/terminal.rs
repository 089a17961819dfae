//! Terminal selection.
//!
//! A CLI agent is launched into a new terminal window. The user picks
//! the terminal from a list that only holds the terminals installed on
//! the current machine; the synthetic `Default` entry is always there.
//! What is installed is read from the machine by the caller and handed
//! in as a [`Host`]; everything decided from it is stated here.

use vstd::prelude::*;
use crate::text::{
    str_eq, to_chars, push_char, leading_white_space, trim_end, trim_start_of, trim_end_of, applescript_escaped, escape_applescript, split_fields, non_empty, non_empty_fields,
};
use crate::process::{ProcessCommand, runs, views};

verus! {

/// One of the terminals a CLI agent can be spawned into.
#[derive(Debug, Clone, Copy, PartialEq, Eq, Structural)]
pub enum Terminal {
    /// The OS-builtin default (Terminal.app on macOS, the first emulator
    /// found on Linux, cmd on Windows). Always available.
    Default,
    TerminalApp,
    ITerm2,
    Alacritty,
    WezTerm,
    Kitty,
    Warp,
    GnomeTerminal,
    Konsole,
    Xfce4Terminal,
    Xterm,
    WindowsTerminal,
    Cmd,
    PowerShell,
}

/// The persisted key of each terminal.
pub open spec fn key_of(t: Terminal) -> Seq<char> {
    match t {
        Terminal::Default => "default"@,
        Terminal::TerminalApp => "terminal"@,
        Terminal::ITerm2 => "iterm2"@,
        Terminal::Alacritty => "alacritty"@,
        Terminal::WezTerm => "wezterm"@,
        Terminal::Kitty => "kitty"@,
        Terminal::Warp => "warp"@,
        Terminal::GnomeTerminal => "gnome-terminal"@,
        Terminal::Konsole => "konsole"@,
        Terminal::Xfce4Terminal => "xfce4-terminal"@,
        Terminal::Xterm => "xterm"@,
        Terminal::WindowsTerminal => "windows-terminal"@,
        Terminal::Cmd => "cmd"@,
        Terminal::PowerShell => "powershell"@,
    }
}

/// The terminal a persisted key names; the empty key, and any key that
/// names no terminal, give `Default`.
pub open spec fn terminal_of_key(s: Seq<char>) -> Terminal {
    if s == ""@ || s == "default"@ {
        Terminal::Default
    } else if s == "terminal"@ {
        Terminal::TerminalApp
    } else if s == "iterm2"@ {
        Terminal::ITerm2
    } else if s == "alacritty"@ {
        Terminal::Alacritty
    } else if s == "wezterm"@ {
        Terminal::WezTerm
    } else if s == "kitty"@ {
        Terminal::Kitty
    } else if s == "warp"@ {
        Terminal::Warp
    } else if s == "gnome-terminal"@ {
        Terminal::GnomeTerminal
    } else if s == "konsole"@ {
        Terminal::Konsole
    } else if s == "xfce4-terminal"@ {
        Terminal::Xfce4Terminal
    } else if s == "xterm"@ {
        Terminal::Xterm
    } else if s == "windows-terminal"@ {
        Terminal::WindowsTerminal
    } else if s == "cmd"@ {
        Terminal::Cmd
    } else if s == "powershell"@ {
        Terminal::PowerShell
    } else {
        Terminal::Default
    }
}

/// The length and the first character of each key literal: enough to
/// tell any two keys apart.
proof fn lemma_key_shapes()
    ensures
        ""@.len() == 0,
        "default"@.len() == 7,
        "default"@[0] == 'd',
        "terminal"@.len() == 8,
        "terminal"@[0] == 't',
        "iterm2"@.len() == 6,
        "iterm2"@[0] == 'i',
        "alacritty"@.len() == 9,
        "alacritty"@[0] == 'a',
        "wezterm"@.len() == 7,
        "wezterm"@[0] == 'w',
        "kitty"@.len() == 5,
        "kitty"@[0] == 'k',
        "warp"@.len() == 4,
        "warp"@[0] == 'w',
        "gnome-terminal"@.len() == 14,
        "gnome-terminal"@[0] == 'g',
        "konsole"@.len() == 7,
        "konsole"@[0] == 'k',
        "xfce4-terminal"@.len() == 14,
        "xfce4-terminal"@[0] == 'x',
        "xterm"@.len() == 5,
        "xterm"@[0] == 'x',
        "windows-terminal"@.len() == 16,
        "windows-terminal"@[0] == 'w',
        "cmd"@.len() == 3,
        "cmd"@[0] == 'c',
        "powershell"@.len() == 10,
        "powershell"@[0] == 'p',
{
    reveal_strlit("");
    reveal_strlit("default");
    reveal_strlit("terminal");
    reveal_strlit("iterm2");
    reveal_strlit("alacritty");
    reveal_strlit("wezterm");
    reveal_strlit("kitty");
    reveal_strlit("warp");
    reveal_strlit("gnome-terminal");
    reveal_strlit("konsole");
    reveal_strlit("xfce4-terminal");
    reveal_strlit("xterm");
    reveal_strlit("windows-terminal");
    reveal_strlit("cmd");
    reveal_strlit("powershell");
}

/// Every terminal survives a trip through its persisted key.
pub proof fn lemma_key_round_trip(t: Terminal)
    ensures
        terminal_of_key(key_of(t)) == t,
{
    lemma_key_shapes();
    match t {
        Terminal::Default => assert(terminal_of_key("default"@) == t),
        Terminal::TerminalApp => assert(terminal_of_key("terminal"@) == t),
        Terminal::ITerm2 => assert(terminal_of_key("iterm2"@) == t),
        Terminal::Alacritty => assert(terminal_of_key("alacritty"@) == t),
        Terminal::WezTerm => assert(terminal_of_key("wezterm"@) == t),
        Terminal::Kitty => assert(terminal_of_key("kitty"@) == t),
        Terminal::Warp => assert(terminal_of_key("warp"@) == t),
        Terminal::GnomeTerminal => assert(terminal_of_key("gnome-terminal"@) == t),
        Terminal::Konsole => assert(terminal_of_key("konsole"@) == t),
        Terminal::Xfce4Terminal => assert(terminal_of_key("xfce4-terminal"@) == t),
        Terminal::Xterm => assert(terminal_of_key("xterm"@) == t),
        Terminal::WindowsTerminal => assert(terminal_of_key("windows-terminal"@) == t),
        Terminal::Cmd => assert(terminal_of_key("cmd"@) == t),
        Terminal::PowerShell => assert(terminal_of_key("powershell"@) == t),
    }
}


/// The label shown for each terminal in the dropdown.
pub open spec fn label_of(t: Terminal) -> Seq<char> {
    match t {
        Terminal::Default => "System default"@,
        Terminal::TerminalApp => "Terminal"@,
        Terminal::ITerm2 => "iTerm2"@,
        Terminal::Alacritty => "Alacritty"@,
        Terminal::WezTerm => "WezTerm"@,
        Terminal::Kitty => "kitty"@,
        Terminal::Warp => "Warp"@,
        Terminal::GnomeTerminal => "GNOME Terminal"@,
        Terminal::Konsole => "Konsole"@,
        Terminal::Xfce4Terminal => "XFCE Terminal"@,
        Terminal::Xterm => "xterm"@,
        Terminal::WindowsTerminal => "Windows Terminal"@,
        Terminal::Cmd => "Command Prompt"@,
        Terminal::PowerShell => "PowerShell"@,
    }
}

/// The name of each variant, as `{:?}` prints it.
pub open spec fn variant_name_of(t: Terminal) -> Seq<char> {
    match t {
        Terminal::Default => "Default"@,
        Terminal::TerminalApp => "TerminalApp"@,
        Terminal::ITerm2 => "ITerm2"@,
        Terminal::Alacritty => "Alacritty"@,
        Terminal::WezTerm => "WezTerm"@,
        Terminal::Kitty => "Kitty"@,
        Terminal::Warp => "Warp"@,
        Terminal::GnomeTerminal => "GnomeTerminal"@,
        Terminal::Konsole => "Konsole"@,
        Terminal::Xfce4Terminal => "Xfce4Terminal"@,
        Terminal::Xterm => "Xterm"@,
        Terminal::WindowsTerminal => "WindowsTerminal"@,
        Terminal::Cmd => "Cmd"@,
        Terminal::PowerShell => "PowerShell"@,
    }
}

/// Any string that is the key of no terminal is read as `Default`.
pub proof fn lemma_unknown_key_is_default(s: Seq<char>)
    requires
        forall|t: Terminal| key_of(t) != s,
    ensures
        terminal_of_key(s) == Terminal::Default,
{
    assert(key_of(Terminal::Default) != s);
    assert(key_of(Terminal::TerminalApp) != s);
    assert(key_of(Terminal::ITerm2) != s);
    assert(key_of(Terminal::Alacritty) != s);
    assert(key_of(Terminal::WezTerm) != s);
    assert(key_of(Terminal::Kitty) != s);
    assert(key_of(Terminal::Warp) != s);
    assert(key_of(Terminal::GnomeTerminal) != s);
    assert(key_of(Terminal::Konsole) != s);
    assert(key_of(Terminal::Xfce4Terminal) != s);
    assert(key_of(Terminal::Xterm) != s);
    assert(key_of(Terminal::WindowsTerminal) != s);
    assert(key_of(Terminal::Cmd) != s);
    assert(key_of(Terminal::PowerShell) != s);
}

/// No two terminals share a key.
pub proof fn lemma_keys_distinct(t1: Terminal, t2: Terminal)
    requires
        key_of(t1) == key_of(t2),
    ensures
        t1 == t2,
{
    lemma_key_round_trip(t1);
    lemma_key_round_trip(t2);
}

impl Terminal {
    /// Maps a persisted key (e.g. from `prefs.json`) to a terminal.
    /// Unknown and empty keys fall back to `Default`.
    pub fn from_key(s: &str) -> (t: Terminal)
        ensures
            t == terminal_of_key(s@),
    {
        if str_eq(s, "") || str_eq(s, "default") {
            Terminal::Default
        } else if str_eq(s, "terminal") {
            Terminal::TerminalApp
        } else if str_eq(s, "iterm2") {
            Terminal::ITerm2
        } else if str_eq(s, "alacritty") {
            Terminal::Alacritty
        } else if str_eq(s, "wezterm") {
            Terminal::WezTerm
        } else if str_eq(s, "kitty") {
            Terminal::Kitty
        } else if str_eq(s, "warp") {
            Terminal::Warp
        } else if str_eq(s, "gnome-terminal") {
            Terminal::GnomeTerminal
        } else if str_eq(s, "konsole") {
            Terminal::Konsole
        } else if str_eq(s, "xfce4-terminal") {
            Terminal::Xfce4Terminal
        } else if str_eq(s, "xterm") {
            Terminal::Xterm
        } else if str_eq(s, "windows-terminal") {
            Terminal::WindowsTerminal
        } else if str_eq(s, "cmd") {
            Terminal::Cmd
        } else if str_eq(s, "powershell") {
            Terminal::PowerShell
        } else {
            Terminal::Default
        }
    }

    /// Stable string key used in `prefs.json` and the UI.
    pub fn key(&self) -> (k: &'static str)
        ensures
            k@ == key_of(*self),
    {
        match self {
            Terminal::Default => "default",
            Terminal::TerminalApp => "terminal",
            Terminal::ITerm2 => "iterm2",
            Terminal::Alacritty => "alacritty",
            Terminal::WezTerm => "wezterm",
            Terminal::Kitty => "kitty",
            Terminal::Warp => "warp",
            Terminal::GnomeTerminal => "gnome-terminal",
            Terminal::Konsole => "konsole",
            Terminal::Xfce4Terminal => "xfce4-terminal",
            Terminal::Xterm => "xterm",
            Terminal::WindowsTerminal => "windows-terminal",
            Terminal::Cmd => "cmd",
            Terminal::PowerShell => "powershell",
        }
    }

    /// Human-readable label shown in the dropdown.
    pub fn label(&self) -> (l: &'static str)
        ensures
            l@ == label_of(*self),
    {
        match self {
            Terminal::Default => "System default",
            Terminal::TerminalApp => "Terminal",
            Terminal::ITerm2 => "iTerm2",
            Terminal::Alacritty => "Alacritty",
            Terminal::WezTerm => "WezTerm",
            Terminal::Kitty => "kitty",
            Terminal::Warp => "Warp",
            Terminal::GnomeTerminal => "GNOME Terminal",
            Terminal::Konsole => "Konsole",
            Terminal::Xfce4Terminal => "XFCE Terminal",
            Terminal::Xterm => "xterm",
            Terminal::WindowsTerminal => "Windows Terminal",
            Terminal::Cmd => "Command Prompt",
            Terminal::PowerShell => "PowerShell",
        }
    }

    /// The variant's name, as the `Debug` format prints it.
    pub fn variant_name(&self) -> (n: &'static str)
        ensures
            n@ == variant_name_of(*self),
    {
        match self {
            Terminal::Default => "Default",
            Terminal::TerminalApp => "TerminalApp",
            Terminal::ITerm2 => "ITerm2",
            Terminal::Alacritty => "Alacritty",
            Terminal::WezTerm => "WezTerm",
            Terminal::Kitty => "Kitty",
            Terminal::Warp => "Warp",
            Terminal::GnomeTerminal => "GnomeTerminal",
            Terminal::Konsole => "Konsole",
            Terminal::Xfce4Terminal => "Xfce4Terminal",
            Terminal::Xterm => "Xterm",
            Terminal::WindowsTerminal => "WindowsTerminal",
            Terminal::Cmd => "Cmd",
            Terminal::PowerShell => "PowerShell",
        }
    }
}


/// The operating system family the launcher runs on.
#[derive(Debug, Clone, Copy, PartialEq, Eq, Structural)]
pub enum Platform {
    MacOs,
    Linux,
    Windows,
    Other,
}

/// What is known of the machine the launcher runs on: its platform,
/// the names of the files found in the directories of the login `PATH`,
/// and the names of the `.app` bundles found in `/Applications` or
/// `~/Applications`.
pub struct Host {
    pub platform: Platform,
    pub path_files: Vec<String>,
    pub app_bundles: Vec<String>,
}

/// True when one of `names` is `name`.
pub open spec fn names_contain(names: Seq<String>, name: Seq<char>) -> bool {
    exists|i: int| 0 <= i < names.len() && #[trigger] names[i]@ == name
}

/// The file names under which the binary `name` is looked for: the
/// bare name, and on Windows also with an `.exe`, `.cmd` or `.bat`
/// extension.
pub open spec fn binary_file_names_of(name: Seq<char>, platform: Platform) -> Seq<Seq<char>> {
    if platform == Platform::Windows {
        seq![name, name + ".exe"@, name + ".cmd"@, name + ".bat"@]
    } else {
        seq![name]
    }
}

/// True when the binary `name` is on the host's `PATH`.
pub open spec fn binary_present(host: Host, name: Seq<char>) -> bool {
    let files = binary_file_names_of(name, host.platform);
    exists|j: int| 0 <= j < files.len() && names_contain(host.path_files@, #[trigger] files[j])
}

/// True when the macOS bundle `name` is present; never off macOS.
pub open spec fn bundle_present(host: Host, name: Seq<char>) -> bool {
    host.platform == Platform::MacOs && names_contain(host.app_bundles@, name)
}

/// True when the binary or bundle backing the terminal is present.
pub open spec fn installed(t: Terminal, host: Host) -> bool {
    match t {
        Terminal::Default => true,
        Terminal::TerminalApp => bundle_present(host, "Terminal.app"@),
        Terminal::ITerm2 => bundle_present(host, "iTerm.app"@),
        Terminal::Alacritty => binary_present(host, "alacritty"@),
        Terminal::WezTerm => binary_present(host, "wezterm"@),
        Terminal::Kitty => binary_present(host, "kitty"@),
        Terminal::Warp => bundle_present(host, "Warp.app"@),
        Terminal::GnomeTerminal => binary_present(host, "gnome-terminal"@),
        Terminal::Konsole => binary_present(host, "konsole"@),
        Terminal::Xfce4Terminal => binary_present(host, "xfce4-terminal"@),
        Terminal::Xterm => binary_present(host, "xterm"@),
        Terminal::WindowsTerminal => binary_present(host, "wt"@) || binary_present(host, "wt.exe"@),
        Terminal::Cmd => binary_present(host, "cmd"@) || host.platform == Platform::Windows,
        Terminal::PowerShell => binary_present(host, "powershell"@) || binary_present(host, "pwsh"@),
    }
}

/// True when the terminal is a candidate the UI should offer.
pub open spec fn selectable(t: Terminal, host: Host) -> bool {
    t == Terminal::Default || installed(t, host)
}

/// True when one of `names` is `name`.
fn contains_name(names: &Vec<String>, name: &str) -> (b: bool)
    ensures
        b == names_contain(names@, name@),
{
    let mut i: usize = 0;
    while i < names.len()
        invariant
            i <= names.len(),
            forall|k: int| 0 <= k < i ==> names@[k]@ != name@,
        decreases names.len() - i,
    {
        if str_eq(names[i].as_str(), name) {
            return true;
        }
        i = i + 1;
    }
    false
}

/// The file names under which the binary `name` is looked for on
/// `platform`.
pub fn binary_file_names(name: &str, platform: Platform) -> (files: Vec<String>)
    ensures
        files@.map_values(|f: String| f@) == binary_file_names_of(name@, platform),
{
    let mut files: Vec<String> = Vec::new();
    files.push(String::from_str(name));
    if platform == Platform::Windows {
        files.push(String::from_str(name).concat(".exe"));
        files.push(String::from_str(name).concat(".cmd"));
        files.push(String::from_str(name).concat(".bat"));
    }
    proof {
        assert(files@.map_values(|f: String| f@) =~= binary_file_names_of(name@, platform));
    }
    files
}

/// True when the binary `name` is on the host's `PATH`.
pub fn binary_in(host: &Host, name: &str) -> (b: bool)
    ensures
        b == binary_present(*host, name@),
{
    let files = binary_file_names(name, host.platform);
    let ghost spec_files = binary_file_names_of(name@, host.platform);
    let mut j: usize = 0;
    while j < files.len()
        invariant
            j <= files.len(),
            files@.map_values(|f: String| f@) == spec_files,
            spec_files == binary_file_names_of(name@, host.platform),
            forall|k: int| 0 <= k < j ==> !names_contain(host.path_files@, #[trigger] spec_files[k]),
        decreases files.len() - j,
    {
        assert(spec_files[j as int] == files@[j as int]@);
        if contains_name(&host.path_files, files[j].as_str()) {
            return true;
        }
        j = j + 1;
    }
    assert(spec_files.len() == files.len());
    false
}

/// True when the macOS bundle `name` is present; always false off
/// macOS.
pub fn macos_bundle(host: &Host, name: &str) -> (b: bool)
    ensures
        b == bundle_present(*host, name@),
{
    host.platform == Platform::MacOs && contains_name(&host.app_bundles, name)
}

impl Terminal {
    /// True if the binary or `.app` bundle backing this terminal is
    /// present on the host.
    pub fn is_installed(self, host: &Host) -> (b: bool)
        ensures
            b == installed(self, *host),
    {
        match self {
            Terminal::Default => true,
            Terminal::TerminalApp => macos_bundle(host, "Terminal.app"),
            Terminal::ITerm2 => macos_bundle(host, "iTerm.app"),
            Terminal::Alacritty => binary_in(host, "alacritty"),
            Terminal::WezTerm => binary_in(host, "wezterm"),
            Terminal::Kitty => binary_in(host, "kitty"),
            Terminal::Warp => macos_bundle(host, "Warp.app"),
            Terminal::GnomeTerminal => binary_in(host, "gnome-terminal"),
            Terminal::Konsole => binary_in(host, "konsole"),
            Terminal::Xfce4Terminal => binary_in(host, "xfce4-terminal"),
            Terminal::Xterm => binary_in(host, "xterm"),
            Terminal::WindowsTerminal => binary_in(host, "wt") || binary_in(host, "wt.exe"),
            Terminal::Cmd => binary_in(host, "cmd") || host.platform == Platform::Windows,
            Terminal::PowerShell => binary_in(host, "powershell") || binary_in(host, "pwsh"),
        }
    }

    /// True if this terminal is a candidate the UI should expose:
    /// `Default` always, the others when installed.
    pub fn available(self, host: &Host) -> (b: bool)
        ensures
            b == selectable(self, *host),
    {
        match self {
            Terminal::Default => true,
            other => other.is_installed(host),
        }
    }
}


/// All terminals known on a platform, in display order, before
/// install detection.
pub open spec fn platform_terminals(platform: Platform) -> Seq<Terminal> {
    match platform {
        Platform::MacOs => seq![
            Terminal::Default,
            Terminal::TerminalApp,
            Terminal::ITerm2,
            Terminal::Alacritty,
            Terminal::WezTerm,
            Terminal::Kitty,
            Terminal::Warp,
        ],
        Platform::Linux => seq![
            Terminal::Default,
            Terminal::GnomeTerminal,
            Terminal::Konsole,
            Terminal::Xfce4Terminal,
            Terminal::Xterm,
            Terminal::Alacritty,
            Terminal::WezTerm,
            Terminal::Kitty,
        ],
        Platform::Windows => seq![
            Terminal::Default,
            Terminal::WindowsTerminal,
            Terminal::Cmd,
            Terminal::PowerShell,
        ],
        Platform::Other => seq![Terminal::Default],
    }
}

/// The terminals the dropdown lists on `host`: the platform's
/// terminals, in display order, that are selectable there.
pub open spec fn available_terminals(host: Host) -> Seq<Terminal> {
    platform_terminals(host.platform).filter(|t: Terminal| selectable(t, host))
}

/// All terminals known on `platform`, in display order.
pub fn all_for_platform(platform: Platform) -> (ts: Vec<Terminal>)
    ensures
        ts@ == platform_terminals(platform),
{
    let mut ts: Vec<Terminal> = Vec::new();
    ts.push(Terminal::Default);
    match platform {
        Platform::MacOs => {
            ts.push(Terminal::TerminalApp);
            ts.push(Terminal::ITerm2);
            ts.push(Terminal::Alacritty);
            ts.push(Terminal::WezTerm);
            ts.push(Terminal::Kitty);
            ts.push(Terminal::Warp);
        },
        Platform::Linux => {
            ts.push(Terminal::GnomeTerminal);
            ts.push(Terminal::Konsole);
            ts.push(Terminal::Xfce4Terminal);
            ts.push(Terminal::Xterm);
            ts.push(Terminal::Alacritty);
            ts.push(Terminal::WezTerm);
            ts.push(Terminal::Kitty);
        },
        Platform::Windows => {
            ts.push(Terminal::WindowsTerminal);
            ts.push(Terminal::Cmd);
            ts.push(Terminal::PowerShell);
        },
        Platform::Other => {},
    }
    proof {
        assert(ts@ =~= platform_terminals(platform));
    }
    ts
}

/// The list offered on every host starts with `Default`.
pub proof fn lemma_available_starts_with_default(host: Host)
    ensures
        available_terminals(host).len() >= 1,
        available_terminals(host)[0] == Terminal::Default,
{
    let all = platform_terminals(host.platform);
    let pred = |t: Terminal| selectable(t, host);
    assert(all[0] == Terminal::Default);
    assert(all.len() >= 1);
    lemma_filter_prefix(all, pred, 1);
    assert(all.take(1) =~= seq![Terminal::Default]);
    reveal_with_fuel(Seq::<_>::filter, 2);
    assert(all.take(1).drop_last() =~= Seq::<Terminal>::empty());
    assert(all.take(1).filter(pred) =~= seq![Terminal::Default]);
}

/// Filtering a prefix gives a prefix of the filtered sequence.
proof fn lemma_filter_prefix<A>(s: Seq<A>, pred: spec_fn(A) -> bool, n: int)
    requires
        0 <= n <= s.len(),
    ensures
        s.take(n).filter(pred).len() <= s.filter(pred).len(),
        forall|i: int|
            0 <= i < s.take(n).filter(pred).len() ==> #[trigger] s.filter(pred)[i] == s.take(n).filter(pred)[i],
    decreases s.len() - n,
{
    if n < s.len() {
        lemma_filter_prefix(s, pred, n + 1);
        assert(s.take(n + 1).drop_last() =~= s.take(n));
        assert(s.take(n + 1) =~= s.take(n).push(s[n]));
        s.take(n).lemma_filter_push(s[n], pred);
    } else {
        assert(s.take(n) =~= s);
    }
}

/// Terminals available on `host`, for the dropdown: `Default` first,
/// then the platform's terminals that are installed.
pub fn available(host: &Host) -> (ts: Vec<Terminal>)
    ensures
        ts@ == available_terminals(*host),
        ts.len() >= 1,
        ts@[0] == Terminal::Default,
{
    let all = all_for_platform(host.platform);
    let ghost pred = |t: Terminal| selectable(t, *host);
    let mut ts: Vec<Terminal> = Vec::new();
    let mut i: usize = 0;
    while i < all.len()
        invariant
            i <= all.len(),
            all@ == platform_terminals(host.platform),
            pred == (|t: Terminal| selectable(t, *host)),
            ts@ == all@.take(i as int).filter(pred),
        decreases all.len() - i,
    {
        let t = all[i];
        proof {
            assert(all@.take(i + 1) =~= all@.take(i as int).push(t));
            all@.take(i as int).lemma_filter_push(t, pred);
        }
        if t.available(host) {
            ts.push(t);
        }
        i = i + 1;
    }
    proof {
        assert(all@.take(all@.len() as int) =~= all@);
        lemma_available_starts_with_default(*host);
    }
    ts
}

/// The index `index_of` answers for `key` in `list`: the first entry
/// whose key is `key`, or 0 when there is none, kept in range.
pub open spec fn index_in(list: Seq<Terminal>, key: Seq<char>) -> int {
    let found = if exists|i: int| 0 <= i < list.len() && key_of(#[trigger] list[i]) == key {
        choose|i: int|
            0 <= i < list.len() && key_of(#[trigger] list[i]) == key && forall|k: int|
                0 <= k < i ==> key_of(#[trigger] list[k]) != key
    } else {
        0
    };
    if list.len() == 0 {
        0
    } else if found < list.len() - 1 {
        found
    } else {
        list.len() - 1
    }
}

/// Index of the terminal keyed `key` in `available(host)`, falling back
/// to 0 (`Default`).
pub fn index_of(key: &str, host: &Host) -> (idx: usize)
    ensures
        idx == index_in(available_terminals(*host), key@),
        idx < available_terminals(*host).len(),
        (exists|i: int|
            0 <= i < available_terminals(*host).len() && key_of(#[trigger] available_terminals(
                *host,
            )[i]) == key@) ==> key_of(available_terminals(*host)[idx as int]) == key@,
        (forall|i: int|
            0 <= i < available_terminals(*host).len() ==> key_of(#[trigger] available_terminals(
                *host,
            )[i]) != key@) ==> available_terminals(*host)[idx as int] == Terminal::Default,
{
    let list = available(host);
    let last = list.len() - 1;
    let ghost l = available_terminals(*host);
    let mut i: usize = 0;
    while i < list.len()
        invariant
            i <= list.len(),
            list@ == l,
            l == available_terminals(*host),
            last == list.len() - 1,
            forall|k: int| 0 <= k < i ==> key_of(#[trigger] l[k]) != key@,
        decreases list.len() - i,
    {
        if str_eq(list[i].key(), key) {
            proof {
                assert(key_of(l[i as int]) == key@);
                let c = choose|c: int|
                    0 <= c < l.len() && key_of(#[trigger] l[c]) == key@ && forall|k: int|
                        0 <= k < c ==> key_of(#[trigger] l[k]) != key@;
                assert(0 <= c < l.len() && key_of(l[c]) == key@);
                if c < i {
                    assert(key_of(l[c]) != key@);
                }
                if c > i {
                    assert(key_of(l[i as int]) != key@);
                }
                assert(c == i);
            }
            return if i < last {
                i
            } else {
                last
            };
        }
        i = i + 1;
    }
    0
}


/// The AppleScript that opens Terminal.app and runs `cmd` in a new window.
pub open spec fn terminal_script(cmd: Seq<char>) -> Seq<char> {
    "tell application \"Terminal\"\nactivate\ndo script \""@ + applescript_escaped(cmd)
        + "\"\nend tell"@
}

/// The AppleScript that opens iTerm2 and runs `cmd` in a new window.
pub open spec fn iterm_script(cmd: Seq<char>) -> Seq<char> {
    "tell application \"iTerm\"\nactivate\ncreate window with default profile command \""@
        + applescript_escaped(cmd) + "\"\nend tell"@
}

/// The AppleScript that opens Terminal.app and runs `cmd` in a new window.
pub fn terminal_do_script(cmd: &str) -> (script: String)
    ensures
        script@ == terminal_script(cmd@),
{
    let escaped = escape_applescript(cmd);
    String::from_str("tell application \"Terminal\"\nactivate\ndo script \"").concat(
        escaped.as_str(),
    ).concat("\"\nend tell")
}

/// The AppleScript that opens iTerm2 and runs `cmd` in a new window.
pub fn iterm_do_script(cmd: &str) -> (script: String)
    ensures
        script@ == iterm_script(cmd@),
{
    let escaped = escape_applescript(cmd);
    String::from_str(
        "tell application \"iTerm\"\nactivate\ncreate window with default profile command \"",
    ).concat(escaped.as_str()).concat("\"\nend tell")
}

/// How a command is put into a terminal window on macOS.
pub enum SpawnPlan {
    /// Start `command` and leave it running; `failure` is the message
    /// to report when it cannot be started.
    Detached { command: ProcessCommand, failure: String },
    /// Warp has no way to run a given command: run `open` to bring
    /// Warp forward and wait for it, then put `text` on the clipboard
    /// for the user to paste.
    Clipboard { open: ProcessCommand, text: String },
}

/// True when `plan` starts `command` as `program args` and reports
/// `failure` when it cannot.
pub open spec fn detached(
    plan: Result<SpawnPlan, String>,
    program: Seq<char>,
    args: Seq<Seq<char>>,
    failure: Seq<char>,
) -> bool {
    plan matches Ok(SpawnPlan::Detached { command, failure: f }) && runs(command, program, args)
        && f@ == failure
}

/// What spawning `cmd` in terminal `t` on macOS does.
pub open spec fn spawn_plan_of(t: Terminal, cmd: Seq<char>, plan: Result<SpawnPlan, String>) -> bool {
    match t {
        Terminal::Default | Terminal::TerminalApp => detached(
            plan,
            "osascript"@,
            seq!["-e"@, terminal_script(cmd)],
            "failed to open Terminal"@,
        ),
        Terminal::ITerm2 => detached(
            plan,
            "osascript"@,
            seq!["-e"@, iterm_script(cmd)],
            "failed to open iTerm2"@,
        ),
        Terminal::Alacritty => detached(
            plan,
            "open"@,
            seq!["-a"@, "Alacritty"@, "--args"@, "-e"@, "bash"@, "-lc"@, cmd],
            "failed to open Alacritty"@,
        ),
        Terminal::WezTerm => detached(
            plan,
            "open"@,
            seq!["-a"@, "WezTerm"@, "--args"@, "cli"@, "spawn"@, "--"@, cmd],
            "failed to open WezTerm"@,
        ),
        Terminal::Kitty => detached(
            plan,
            "open"@,
            seq!["-a"@, "kitty"@, "--args"@, "bash"@, "-lc"@, cmd],
            "failed to open kitty"@,
        ),
        Terminal::Warp => plan matches Ok(SpawnPlan::Clipboard { open, text }) && runs(
            open,
            "open"@,
            seq!["-b"@, "dev.warp.Warp-Stable"@],
        ) && text@ == cmd,
        _ => plan matches Err(e) && e@ == variant_name_of(t) + " is not available on macOS"@,
    }
}

impl Terminal {
    /// How to spawn `cmd` in a new window hosted by this terminal, on
    /// macOS; the terminals of other platforms are refused.
    pub fn spawn(&self, cmd: &str) -> (plan: Result<SpawnPlan, String>)
        ensures
            spawn_plan_of(*self, cmd@, plan),
    {
        match self {
            Terminal::Default | Terminal::TerminalApp => {
                let mut c = ProcessCommand::new("osascript");
                c.arg("-e");
                let script = terminal_do_script(cmd);
                c.arg(script.as_str());
                assert(crate::process::views(c.args@) =~= seq!["-e"@, terminal_script(cmd@)]);
                Ok(SpawnPlan::Detached { command: c, failure: String::from_str("failed to open Terminal") })
            },
            Terminal::ITerm2 => {
                let mut c = ProcessCommand::new("osascript");
                c.arg("-e");
                let script = iterm_do_script(cmd);
                c.arg(script.as_str());
                assert(crate::process::views(c.args@) =~= seq!["-e"@, iterm_script(cmd@)]);
                Ok(SpawnPlan::Detached { command: c, failure: String::from_str("failed to open iTerm2") })
            },
            Terminal::Alacritty => {
                let mut c = ProcessCommand::new("open");
                c.arg("-a");
                c.arg("Alacritty");
                c.arg("--args");
                c.arg("-e");
                c.arg("bash");
                c.arg("-lc");
                c.arg(cmd);
                assert(crate::process::views(c.args@) =~= seq!["-a"@, "Alacritty"@, "--args"@, "-e"@, "bash"@, "-lc"@, cmd@]);
                Ok(SpawnPlan::Detached { command: c, failure: String::from_str("failed to open Alacritty") })
            },
            Terminal::WezTerm => {
                let mut c = ProcessCommand::new("open");
                c.arg("-a");
                c.arg("WezTerm");
                c.arg("--args");
                c.arg("cli");
                c.arg("spawn");
                c.arg("--");
                c.arg(cmd);
                assert(crate::process::views(c.args@) =~= seq!["-a"@, "WezTerm"@, "--args"@, "cli"@, "spawn"@, "--"@, cmd@]);
                Ok(SpawnPlan::Detached { command: c, failure: String::from_str("failed to open WezTerm") })
            },
            Terminal::Kitty => {
                let mut c = ProcessCommand::new("open");
                c.arg("-a");
                c.arg("kitty");
                c.arg("--args");
                c.arg("bash");
                c.arg("-lc");
                c.arg(cmd);
                assert(crate::process::views(c.args@) =~= seq!["-a"@, "kitty"@, "--args"@, "bash"@, "-lc"@, cmd@]);
                Ok(SpawnPlan::Detached { command: c, failure: String::from_str("failed to open kitty") })
            },
            Terminal::Warp => {
                let mut c = ProcessCommand::new("open");
                c.arg("-b");
                c.arg("dev.warp.Warp-Stable");
                assert(crate::process::views(c.args@) =~= seq!["-b"@, "dev.warp.Warp-Stable"@]);
                Ok(SpawnPlan::Clipboard { open: c, text: String::from_str(cmd) })
            },
            other => Err(String::from_str(other.variant_name()).concat(" is not available on macOS")),
        }
    }
}


/// The directories named by what the login shell printed for `$PATH`:
/// none when it printed nothing (the caller then falls back to the
/// process's own `PATH`), else its non-empty `:`-separated fields.
pub fn parse_login_path(out: &str) -> (dirs: Option<Vec<String>>)
    ensures
        dirs is None <==> out@.len() == 0,
        dirs matches Some(d) ==> views(d@) == split_fields(out@, ':').filter(
            |f: Seq<char>| non_empty(f),
        ),
{
    if out.is_empty() {
        None
    } else {
        Some(non_empty_fields(out, ':'))
    }
}

/// The binaries whose presence on `PATH` decides whether a terminal is
/// installed.
pub open spec fn probed_binaries() -> Seq<Seq<char>> {
    seq![
        "alacritty"@,
        "wezterm"@,
        "kitty"@,
        "gnome-terminal"@,
        "konsole"@,
        "xfce4-terminal"@,
        "xterm"@,
        "wt"@,
        "wt.exe"@,
        "cmd"@,
        "powershell"@,
        "pwsh"@,
    ]
}

/// The `.app` bundles whose presence decides whether a terminal is
/// installed.
pub open spec fn probed_bundles() -> Seq<Seq<char>> {
    seq!["Terminal.app"@, "iTerm.app"@, "Warp.app"@]
}

/// The parts one after another.
pub open spec fn concatenated(parts: Seq<Seq<Seq<char>>>) -> Seq<Seq<char>>
    decreases parts.len(),
{
    if parts.len() == 0 {
        Seq::empty()
    } else {
        concatenated(parts.drop_last()) + parts.last()
    }
}

/// The file names to look for in the `PATH` directories on `platform`:
/// those of each probed binary, in turn.
pub open spec fn probed_file_names(platform: Platform) -> Seq<Seq<char>> {
    concatenated(probed_binaries().map_values(|b: Seq<char>| binary_file_names_of(b, platform)))
}

/// The file names to look for in the `PATH` directories on `platform`.
pub fn probe_file_names(platform: Platform) -> (files: Vec<String>)
    ensures
        views(files@) == probed_file_names(platform),
{
    let binaries: [&str; 12] = [
        "alacritty",
        "wezterm",
        "kitty",
        "gnome-terminal",
        "konsole",
        "xfce4-terminal",
        "xterm",
        "wt",
        "wt.exe",
        "cmd",
        "powershell",
        "pwsh",
    ];
    let ghost parts = probed_binaries().map_values(|b: Seq<char>| binary_file_names_of(b, platform));
    let mut files: Vec<String> = Vec::new();
    let mut b: usize = 0;
    proof {
        assert(parts.take(0) =~= Seq::<Seq<Seq<char>>>::empty());
        assert(views(files@) =~= Seq::<Seq<char>>::empty());
    }
    while b < 12
        invariant
            b <= 12,
            parts == probed_binaries().map_values(|b: Seq<char>| binary_file_names_of(b, platform)),
            forall|k: int| 0 <= k < 12 ==> (#[trigger] binaries@[k])@ == probed_binaries()[k],
            views(files@) == concatenated(parts.take(b as int)),
        decreases 12 - b,
    {
        let names = binary_file_names(binaries[b], platform);
        let ghost before = views(files@);
        let mut j: usize = 0;
        while j < names.len()
            invariant
                j <= names.len(),
                views(files@) == before + views(names@).take(j as int),
            decreases names.len() - j,
        {
            let ghost prev = files@;
            files.push(names[j].clone());
            proof {
                assert(views(names@).take(j + 1) =~= views(names@).take(j as int).push(names@[j as int]@));
                assert(views(files@) =~= views(prev).push(names@[j as int]@));
                assert(views(files@) =~= before + views(names@).take(j + 1));
            }
            j = j + 1;
        }
        proof {
            assert(views(names@).take(names.len() as int) =~= views(names@));
            assert(parts[b as int] == binary_file_names_of(probed_binaries()[b as int], platform));
            assert(parts.take(b + 1).drop_last() =~= parts.take(b as int));
            assert(parts.take(b + 1).last() == parts[b as int]);
        }
        b = b + 1;
    }
    proof {
        assert(parts.len() == 12);
        assert(parts.take(12) =~= parts);
    }
    files
}

/// The `.app` bundle names to look for in `/Applications` and
/// `~/Applications`.
pub fn probe_bundle_names() -> (bundles: Vec<String>)
    ensures
        views(bundles@) == probed_bundles(),
{
    let mut bundles: Vec<String> = Vec::new();
    bundles.push(String::from_str("Terminal.app"));
    bundles.push(String::from_str("iTerm.app"));
    bundles.push(String::from_str("Warp.app"));
    proof {
        assert(views(bundles@) =~= probed_bundles());
    }
    bundles
}


/// Every terminal has a non-empty key and a non-empty label.
pub proof fn lemma_key_and_label_non_empty(t: Terminal)
    ensures
        key_of(t).len() > 0,
        label_of(t).len() > 0,
{
    reveal_strlit("default");
    assert("default"@.len() > 0);
    reveal_strlit("terminal");
    assert("terminal"@.len() > 0);
    reveal_strlit("iterm2");
    assert("iterm2"@.len() > 0);
    reveal_strlit("alacritty");
    assert("alacritty"@.len() > 0);
    reveal_strlit("wezterm");
    assert("wezterm"@.len() > 0);
    reveal_strlit("kitty");
    assert("kitty"@.len() > 0);
    reveal_strlit("warp");
    assert("warp"@.len() > 0);
    reveal_strlit("gnome-terminal");
    assert("gnome-terminal"@.len() > 0);
    reveal_strlit("konsole");
    assert("konsole"@.len() > 0);
    reveal_strlit("xfce4-terminal");
    assert("xfce4-terminal"@.len() > 0);
    reveal_strlit("xterm");
    assert("xterm"@.len() > 0);
    reveal_strlit("windows-terminal");
    assert("windows-terminal"@.len() > 0);
    reveal_strlit("cmd");
    assert("cmd"@.len() > 0);
    reveal_strlit("powershell");
    assert("powershell"@.len() > 0);
    reveal_strlit("System default");
    assert("System default"@.len() > 0);
    reveal_strlit("Terminal");
    assert("Terminal"@.len() > 0);
    reveal_strlit("iTerm2");
    assert("iTerm2"@.len() > 0);
    reveal_strlit("Alacritty");
    assert("Alacritty"@.len() > 0);
    reveal_strlit("WezTerm");
    assert("WezTerm"@.len() > 0);
    reveal_strlit("Warp");
    assert("Warp"@.len() > 0);
    reveal_strlit("GNOME Terminal");
    assert("GNOME Terminal"@.len() > 0);
    reveal_strlit("Konsole");
    assert("Konsole"@.len() > 0);
    reveal_strlit("XFCE Terminal");
    assert("XFCE Terminal"@.len() > 0);
    reveal_strlit("Windows Terminal");
    assert("Windows Terminal"@.len() > 0);
    reveal_strlit("Command Prompt");
    assert("Command Prompt"@.len() > 0);
    reveal_strlit("PowerShell");
    assert("PowerShell"@.len() > 0);
}


/// `Default` is available on every host.
pub proof fn lemma_default_always_available(host: Host)
    ensures
        selectable(Terminal::Default, host),
        installed(Terminal::Default, host),
{
}


/// The character of the decimal digit `d`.
pub open spec fn digit_char(d: nat) -> char {
    (48 + d) as char
}

/// The decimal digits of `n`, most significant first.
pub open spec fn decimal_of_nat(n: nat) -> Seq<char>
    decreases n,
{
    if n < 10 {
        seq![digit_char(n)]
    } else {
        decimal_of_nat(n / 10).push(digit_char(n % 10))
    }
}

/// `i` written in decimal, with a minus sign when negative.
pub open spec fn decimal_of(i: int) -> Seq<char> {
    if i < 0 {
        seq!['-'] + decimal_of_nat((-i) as nat)
    } else {
        decimal_of_nat(i as nat)
    }
}

/// An optional exit code as `{:?}` prints it: `Some(<decimal>)` or `None`.
pub open spec fn debug_exit_code(code: Option<i32>) -> Seq<char> {
    match code {
        Some(c) => "Some("@ + decimal_of(c as int) + ")"@,
        None => "None"@,
    }
}

/// Appends the decimal digits of `n`.
fn push_decimal(s: &mut String, n: u64)
    ensures
        final(s)@ == old(s)@ + decimal_of_nat(n as nat),
    decreases n,
{
    if n >= 10 {
        push_decimal(s, n / 10);
    }
    let d = (n % 10) as u8;
    push_char(s, (48u8 + d) as char);
    proof {
        assert((48u8 + d) as char == digit_char((n % 10) as nat));
        if n >= 10 {
            assert(decimal_of_nat(n as nat) == decimal_of_nat((n / 10) as nat).push(digit_char((n % 10) as nat)));
        } else {
            assert(decimal_of_nat(n as nat) == seq![digit_char(n as nat)]);
        }
    }
}

/// An optional exit code as `{:?}` prints it.
pub fn format_exit_code(code: Option<i32>) -> (s: String)
    ensures
        s@ == debug_exit_code(code),
{
    match code {
        Some(c) => {
            let mut s = String::from_str("Some(");
            if c < 0 {
                push_char(&mut s, '-');
                let m: i64 = -(c as i64);
                push_decimal(&mut s, m as u64);
            } else {
                push_decimal(&mut s, c as u64);
            }
            let s = s.concat(")");
            proof {
                if c < 0 {
                    assert(s@ =~= "Some("@ + decimal_of(c as int) + ")"@);
                } else {
                    assert(s@ =~= "Some("@ + decimal_of(c as int) + ")"@);
                }
            }
            s
        },
        None => String::from_str("None"),
    }
}

/// `s` without its leading and trailing white space, as `str::trim`
/// gives it.
pub open spec fn trimmed(s: Seq<char>) -> Seq<char> {
    trim_end_of(trim_start_of(s))
}

/// `s` without its leading and trailing white space.
pub fn trim(s: &str) -> (r: String)
    ensures
        r@ == trimmed(s@),
{
    let v = to_chars(s);
    let k = leading_white_space(&v);
    let mut rest = String::new();
    let mut i: usize = k;
    while i < v.len()
        invariant
            k <= i <= v.len(),
            rest@ == v@.subrange(k as int, i as int),
        decreases v.len() - i,
    {
        push_char(&mut rest, v[i]);
        proof {
            assert(v@.subrange(k as int, i + 1) =~= v@.subrange(k as int, i as int).push(v@[i as int]));
        }
        i = i + 1;
    }
    proof {
        assert(v@.subrange(k as int, v.len() as int) =~= v@.skip(k as int));
    }
    trim_end(rest.as_str())
}

/// What follows the `open` that brings Warp forward: carry on to the
/// clipboard when it succeeded, else fail with its exit code and its
/// trimmed error output.
pub fn warp_open_checked(success: bool, code: Option<i32>, stderr: &str) -> (r: Result<(), String>)
    ensures
        success ==> r is Ok,
        !success ==> (r matches Err(e) && e@ == "Could not launch Warp (open exit "@
            + debug_exit_code(code) + "): "@ + trimmed(stderr@)),
{
    if success {
        Ok(())
    } else {
        let code_text = format_exit_code(code);
        let err = trim(stderr);
        Err(
            String::from_str("Could not launch Warp (open exit ").concat(code_text.as_str()).concat(
                "): ",
            ).concat(err.as_str()),
        )
    }
}

/// What follows `pbcopy`: done when it succeeded, else fail with its
/// exit code.
pub fn pbcopy_checked(success: bool, code: Option<i32>) -> (r: Result<(), String>)
    ensures
        success ==> r is Ok,
        !success ==> (r matches Err(e) && e@ == "pbcopy exited "@ + debug_exit_code(code)),
{
    if success {
        Ok(())
    } else {
        let code_text = format_exit_code(code);
        Err(String::from_str("pbcopy exited ").concat(code_text.as_str()))
    }
}


/// A terminal whose backing binary is on `PATH`, or (on macOS) whose
/// `.app` bundle is present, is installed; `cmd` is always installed on
/// Windows. Conversely an installed terminal other than `Default` has
/// one of these.
pub proof fn lemma_installed_iff_backing_present(host: Host)
    ensures
        binary_present(host, "alacritty"@) <==> installed(Terminal::Alacritty, host),
        binary_present(host, "wezterm"@) <==> installed(Terminal::WezTerm, host),
        binary_present(host, "kitty"@) <==> installed(Terminal::Kitty, host),
        binary_present(host, "gnome-terminal"@) <==> installed(Terminal::GnomeTerminal, host),
        binary_present(host, "konsole"@) <==> installed(Terminal::Konsole, host),
        binary_present(host, "xfce4-terminal"@) <==> installed(Terminal::Xfce4Terminal, host),
        binary_present(host, "xterm"@) <==> installed(Terminal::Xterm, host),
        binary_present(host, "wt"@) ==> installed(Terminal::WindowsTerminal, host),
        binary_present(host, "wt.exe"@) ==> installed(Terminal::WindowsTerminal, host),
        installed(Terminal::WindowsTerminal, host) ==> binary_present(host, "wt"@) || binary_present(
            host,
            "wt.exe"@,
        ),
        binary_present(host, "cmd"@) ==> installed(Terminal::Cmd, host),
        host.platform == Platform::Windows ==> installed(Terminal::Cmd, host),
        installed(Terminal::Cmd, host) ==> binary_present(host, "cmd"@) || host.platform
            == Platform::Windows,
        binary_present(host, "powershell"@) ==> installed(Terminal::PowerShell, host),
        binary_present(host, "pwsh"@) ==> installed(Terminal::PowerShell, host),
        installed(Terminal::PowerShell, host) ==> binary_present(host, "powershell"@)
            || binary_present(host, "pwsh"@),
        host.platform == Platform::MacOs && names_contain(host.app_bundles@, "Terminal.app"@)
            <==> installed(Terminal::TerminalApp, host),
        host.platform == Platform::MacOs && names_contain(host.app_bundles@, "iTerm.app"@)
            <==> installed(Terminal::ITerm2, host),
        host.platform == Platform::MacOs && names_contain(host.app_bundles@, "Warp.app"@)
            <==> installed(Terminal::Warp, host),
        installed(Terminal::Default, host),
{
}

/// The dropdown lists exactly the terminals of the platform that are
/// selectable on the host: `Default`, and the installed ones.
pub proof fn lemma_available_lists_installed(host: Host, t: Terminal)
    ensures
        available_terminals(host).contains(t) <==> platform_terminals(host.platform).contains(t) && (t
            == Terminal::Default || installed(t, host)),
{
    let all = platform_terminals(host.platform);
    let pred = |x: Terminal| selectable(x, host);
    if available_terminals(host).contains(t) {
        all.lemma_filter_contains_rev(pred, t);
        let i = choose|i: int| 0 <= i < available_terminals(host).len() && available_terminals(host)[i] == t;
        all.lemma_filter_pred(pred, i);
    }
    if all.contains(t) && selectable(t, host) {
        let i = choose|i: int| 0 <= i < all.len() && all[i] == t;
        all.lemma_filter_contains(pred, i);
    }
}

/// Every file name of a part is among the concatenated parts.
proof fn lemma_concatenated_contains(parts: Seq<Seq<Seq<char>>>, b: int, j: int)
    requires
        0 <= b < parts.len(),
        0 <= j < parts[b].len(),
    ensures
        concatenated(parts).contains(parts[b][j]),
    decreases parts.len(),
{
    let init = parts.drop_last();
    let c = concatenated(init);
    if b == parts.len() - 1 {
        assert((c + parts.last())[c.len() + j] == parts[b][j]);
    } else {
        lemma_concatenated_contains(init, b, j);
        let k = choose|k: int| 0 <= k < c.len() && c[k] == parts[b][j];
        assert((c + parts.last())[k] == parts[b][j]);
    }
}

/// Two hosts that agree on the platform and on every probed name: the
/// file names `probe_file_names` lists and the bundle names
/// `probe_bundle_names` lists.
pub open spec fn agree_on_probes(h1: Host, h2: Host) -> bool {
    &&& h1.platform == h2.platform
    &&& forall|k: int|
        0 <= k < probed_file_names(h1.platform).len() ==> (names_contain(
            h1.path_files@,
            #[trigger] probed_file_names(h1.platform)[k],
        ) <==> names_contain(h2.path_files@, probed_file_names(h1.platform)[k]))
    &&& forall|k: int|
        0 <= k < probed_bundles().len() ==> (names_contain(h1.app_bundles@, #[trigger] probed_bundles()[k])
            <==> names_contain(h2.app_bundles@, probed_bundles()[k]))
}

/// The probed binaries' presence agrees on hosts that agree on the probes.
proof fn lemma_binary_present_agrees(h1: Host, h2: Host, b: int)
    requires
        agree_on_probes(h1, h2),
        0 <= b < probed_binaries().len(),
    ensures
        binary_present(h1, probed_binaries()[b]) == binary_present(h2, probed_binaries()[b]),
{
    let p = h1.platform;
    let name = probed_binaries()[b];
    let files = binary_file_names_of(name, p);
    let parts = probed_binaries().map_values(|x: Seq<char>| binary_file_names_of(x, p));
    assert(parts[b] == files);
    assert forall|j: int| 0 <= j < files.len() implies (names_contain(h1.path_files@, #[trigger] files[j])
        <==> names_contain(h2.path_files@, files[j])) by {
        lemma_concatenated_contains(parts, b, j);
        let pf = probed_file_names(p);
        let k = choose|k: int| 0 <= k < pf.len() && pf[k] == files[j];
        assert(names_contain(h1.path_files@, pf[k]) <==> names_contain(h2.path_files@, pf[k]));
    }
    if binary_present(h1, name) {
        let j = choose|j: int| 0 <= j < files.len() && names_contain(h1.path_files@, #[trigger] files[j]);
        assert(names_contain(h2.path_files@, files[j]));
    }
    if binary_present(h2, name) {
        let j = choose|j: int| 0 <= j < files.len() && names_contain(h2.path_files@, #[trigger] files[j]);
        assert(names_contain(h1.path_files@, files[j]));
    }
}

/// Whether a terminal is installed depends on nothing but the platform
/// and the probed names: two hosts that agree on those agree on every
/// terminal. So building a host by probing the names that
/// `probe_file_names` and `probe_bundle_names` list loses nothing.
pub proof fn lemma_installed_depends_only_on_probes(t: Terminal, h1: Host, h2: Host)
    requires
        agree_on_probes(h1, h2),
    ensures
        installed(t, h1) == installed(t, h2),
{
    let pb = probed_binaries();
    let pd = probed_bundles();
    assert(pd[0] == "Terminal.app"@ && pd[1] == "iTerm.app"@ && pd[2] == "Warp.app"@);
    match t {
        Terminal::Default => {},
        Terminal::TerminalApp => assert(names_contain(h1.app_bundles@, pd[0]) <==> names_contain(h2.app_bundles@, pd[0])),
        Terminal::ITerm2 => assert(names_contain(h1.app_bundles@, pd[1]) <==> names_contain(h2.app_bundles@, pd[1])),
        Terminal::Warp => assert(names_contain(h1.app_bundles@, pd[2]) <==> names_contain(h2.app_bundles@, pd[2])),
        Terminal::Alacritty => lemma_binary_present_agrees(h1, h2, 0),
        Terminal::WezTerm => lemma_binary_present_agrees(h1, h2, 1),
        Terminal::Kitty => lemma_binary_present_agrees(h1, h2, 2),
        Terminal::GnomeTerminal => lemma_binary_present_agrees(h1, h2, 3),
        Terminal::Konsole => lemma_binary_present_agrees(h1, h2, 4),
        Terminal::Xfce4Terminal => lemma_binary_present_agrees(h1, h2, 5),
        Terminal::Xterm => lemma_binary_present_agrees(h1, h2, 6),
        Terminal::WindowsTerminal => {
            lemma_binary_present_agrees(h1, h2, 7);
            lemma_binary_present_agrees(h1, h2, 8);
        },
        Terminal::Cmd => lemma_binary_present_agrees(h1, h2, 9),
        Terminal::PowerShell => {
            lemma_binary_present_agrees(h1, h2, 10);
            lemma_binary_present_agrees(h1, h2, 11);
        },
    }
}


/// How each macOS terminal is told to run the command: Alacritty with
/// `-e bash -lc <cmd>` after `--args`, kitty with `bash -lc <cmd>`,
/// WezTerm with `cli spawn -- <cmd>`; Terminal.app and iTerm2 get an
/// AppleScript that holds the command, escaped, between double quotes;
/// Warp gets the command on the clipboard. Terminals of other platforms
/// are refused.
pub proof fn lemma_spawn_runs_the_command(t: Terminal, cmd: Seq<char>, plan: Result<SpawnPlan, String>)
    requires
        spawn_plan_of(t, cmd, plan),
    ensures
        t == Terminal::Alacritty ==> (plan matches Ok(SpawnPlan::Detached { command, .. })
            && command.program@ == "open"@ && views(command.args@) == seq!["-a"@, "Alacritty"@, "--args"@]
            + seq!["-e"@, "bash"@, "-lc"@, cmd]),
        t == Terminal::Kitty ==> (plan matches Ok(SpawnPlan::Detached { command, .. })
            && command.program@ == "open"@ && views(command.args@) == seq!["-a"@, "kitty"@, "--args"@]
            + seq!["bash"@, "-lc"@, cmd]),
        t == Terminal::WezTerm ==> (plan matches Ok(SpawnPlan::Detached { command, .. })
            && command.program@ == "open"@ && views(command.args@) == seq!["-a"@, "WezTerm"@, "--args"@]
            + seq!["cli"@, "spawn"@, "--"@, cmd]),
        t == Terminal::Default || t == Terminal::TerminalApp ==> (plan matches Ok(
            SpawnPlan::Detached { command, .. },
        ) && command.program@ == "osascript"@ && command.args@.len() == 2 && command.args@[0]@ == "-e"@
            && crate::text::occurs_in(
            "do script \""@ + applescript_escaped(cmd) + "\""@,
            command.args@[1]@,
        ) && crate::text::occurs_in("tell application \"Terminal\""@, command.args@[1]@)),
        t == Terminal::ITerm2 ==> (plan matches Ok(SpawnPlan::Detached { command, .. })
            && command.program@ == "osascript"@ && command.args@.len() == 2 && command.args@[0]@ == "-e"@
            && crate::text::occurs_in(
            "command \""@ + applescript_escaped(cmd) + "\""@,
            command.args@[1]@,
        ) && crate::text::occurs_in("tell application \"iTerm\""@, command.args@[1]@)),
        t == Terminal::Warp ==> (plan matches Ok(SpawnPlan::Clipboard { text, .. }) && text@ == cmd),
        platform_terminals(Platform::MacOs).contains(t) <==> plan is Ok,
{
    let mac = platform_terminals(Platform::MacOs);
    assert(mac[0] == Terminal::Default && mac[1] == Terminal::TerminalApp && mac[2] == Terminal::ITerm2
        && mac[3] == Terminal::Alacritty && mac[4] == Terminal::WezTerm && mac[5] == Terminal::Kitty
        && mac[6] == Terminal::Warp);
    if !(t == Terminal::Default || t == Terminal::TerminalApp || t == Terminal::ITerm2 || t
        == Terminal::Alacritty || t == Terminal::WezTerm || t == Terminal::Kitty || t == Terminal::Warp) {
        assert(!mac.contains(t));
    }
    let esc = applescript_escaped(cmd);
    if t == Terminal::Default || t == Terminal::TerminalApp {
        let pre = "tell application \"Terminal\"\nactivate\n"@;
        let head = "tell application \"Terminal\"\nactivate\ndo script \""@;
        let tail = "\"\nend tell"@;
        reveal_strlit("tell application \"Terminal\"\nactivate\n");
        reveal_strlit("tell application \"Terminal\"\nactivate\ndo script \"");
        reveal_strlit("\"\nend tell");
        reveal_strlit("do script \"");
        reveal_strlit("\"");
        reveal_strlit("tell application \"Terminal\"");
        let script = head + esc + tail;
        let needle = "do script \""@ + esc + "\""@;
        let k: int = pre.len() as int;
        assert(script.subrange(k, k + needle.len()) =~= needle);
        assert(crate::text::occurs_in(needle, script));
        let front = "tell application \"Terminal\""@;
        let z: int = 0;
        assert(script.subrange(z, z + front.len()) =~= front);
        assert(crate::text::occurs_in(front, script));
        assert(script == terminal_script(cmd));
        assert(detached(plan, "osascript"@, seq!["-e"@, terminal_script(cmd)], "failed to open Terminal"@));
        match plan {
            Ok(SpawnPlan::Detached { command, .. }) => {
                assert(runs(command, "osascript"@, seq!["-e"@, terminal_script(cmd)]));
                assert(views(command.args@) == seq!["-e"@, terminal_script(cmd)]);
                assert(views(command.args@).len() == command.args@.len());
                assert(views(command.args@).len() == command.args@.len());
                assert(command.args@[1]@ == views(command.args@)[1]);
                assert(command.args@[0]@ == views(command.args@)[0]);
            },
            _ => {},
        }
    }
    if t == Terminal::ITerm2 {
        let pre = "tell application \"iTerm\"\nactivate\ncreate window with default profile "@;
        let head = "tell application \"iTerm\"\nactivate\ncreate window with default profile command \""@;
        let tail = "\"\nend tell"@;
        reveal_strlit("tell application \"iTerm\"\nactivate\ncreate window with default profile ");
        reveal_strlit("tell application \"iTerm\"\nactivate\ncreate window with default profile command \"");
        reveal_strlit("\"\nend tell");
        reveal_strlit("command \"");
        reveal_strlit("\"");
        reveal_strlit("tell application \"iTerm\"");
        let script = head + esc + tail;
        let needle = "command \""@ + esc + "\""@;
        let k: int = pre.len() as int;
        assert(script.subrange(k, k + needle.len()) =~= needle);
        assert(crate::text::occurs_in(needle, script));
        let front = "tell application \"iTerm\""@;
        let z: int = 0;
        assert(script.subrange(z, z + front.len()) =~= front);
        assert(crate::text::occurs_in(front, script));
        assert(script == iterm_script(cmd));
        match plan {
            Ok(SpawnPlan::Detached { command, .. }) => {
                assert(views(command.args@).len() == command.args@.len());
                assert(command.args@[1]@ == views(command.args@)[1]);
                assert(command.args@[0]@ == views(command.args@)[0]);
            },
            _ => {},
        }
    }
}

} // verus!
