use llaunchpad::launch::{
    agent_running, gui_app, launch_agent, quit_gui, running_states, sanitize_codex_config, Agent,
    LaunchPlan,
};
use llaunchpad::process::ProcessCommand;
use llaunchpad::terminal::{parse_login_path, SpawnPlan, Terminal};

fn agent(name: &str, is_gui: bool) -> Agent {
    Agent { name: name.to_string(), display: String::new(), is_gui }
}

fn paths(ps: &[&str]) -> Vec<String> {
    ps.iter().map(|p| p.to_string()).collect()
}

fn check(c: &ProcessCommand, program: &str, args: &[&str]) {
    assert_eq!(c.program, program);
    assert_eq!(c.args, args.iter().map(|a| a.to_string()).collect::<Vec<_>>());
}

fn is_profile(l: &str) -> bool {
    l.trim_start().starts_with("profile =")
}

/// The rewrite computed with std: the lines that are not `profile =`
/// lines, joined, when some line was one.
fn std_rewrite(content: &str) -> Option<String> {
    let cleaned: String = content
        .lines()
        .filter(|l| !is_profile(l))
        .collect::<Vec<_>>()
        .join("\n");
    if content.lines().any(is_profile) {
        Some(format!("{cleaned}\n"))
    } else {
        None
    }
}

#[test]
fn gui_apps() {
    assert_eq!(gui_app("codex-app"), Some(("Codex", "Codex.app")));
    assert_eq!(gui_app("vscode"), Some(("Visual Studio Code", "Visual Studio Code.app")));
    assert_eq!(gui_app("opencode"), None);
}

#[test]
fn running_detection_uses_the_main_executable() {
    let ps = paths(&[
        "/usr/bin/zsh",
        "/Applications/Codex.app/Contents/Resources/codex",
        "/Applications/Visual Studio Code.app/Contents/MacOS/Electron",
    ]);
    assert!(!agent_running(&agent("codex-app", true), &ps));
    assert!(agent_running(&agent("vscode", true), &ps));
    assert!(!agent_running(&agent("opencode", false), &ps));
    let all = vec![agent("codex-app", true), agent("vscode", true), agent("opencode", false)];
    assert_eq!(running_states(&all, &ps), vec![false, true, false]);
    let ps2 = paths(&["/Applications/Codex.app/Contents/MacOS/Codex"]);
    assert_eq!(running_states(&all, &ps2), vec![true, false, false]);
    assert_eq!(running_states(&Vec::new(), &ps2), Vec::<bool>::new());
}

#[test]
fn codex_config_loses_its_profile_line() {
    let content = "model = \"gpt-oss:120b-cloud\"\nprofile = \"ollama-launch\"\nmodel_provider = \"ollama\"\n";
    assert_eq!(
        sanitize_codex_config(content),
        Some("model = \"gpt-oss:120b-cloud\"\nmodel_provider = \"ollama\"\n".to_string())
    );
    assert_eq!(sanitize_codex_config("a = 1\nb = 2\n"), None);
    assert_eq!(sanitize_codex_config("   profile = x\n"), Some("\n".to_string()));
    assert_eq!(sanitize_codex_config(""), None);
    assert_eq!(sanitize_codex_config("[profiles.x]\nprofile_name = 1\n"), None);
}

#[test]
fn codex_config_rewrite_agrees_with_std() {
    for s in [
        "",
        "\n",
        "a",
        "a\n",
        "a\r\n",
        "a \n",
        "profile = 1",
        "\tprofile = 1\r\nx = 2\r\n",
        "x = 1\nprofile =\n\n\n",
        "\u{e9} = 1\nprofile = 2\n",
        "a\r",
        "profile=1\n",
        "x\u{3000}\n",
        "a\nprofile = \"p\"\n\n\n\n",
        "a \nb",
    ] {
        assert_eq!(sanitize_codex_config(s), std_rewrite(s), "{s:?}");
    }
}

#[test]
fn quitting_a_gui_app() {
    let q = quit_gui("Codex");
    check(&q.ask, "osascript", &["-e", "tell application \"Codex\" to quit"]);
    assert_eq!(q.wait_ms, 1200);
    check(&q.kill, "killall", &["Codex"]);
}

#[test]
fn launching_codex_app() {
    let running = paths(&["/Applications/Codex.app/Contents/MacOS/Codex"]);
    match launch_agent(&agent("codex-app", true), "glm-4.6:cloud", "/usr/local/bin/ollama", &running) {
        LaunchPlan::CodexApp { quit, configure, configure_failure, open, open_failure } => {
            check(&quit.unwrap().kill, "killall", &["Codex"]);
            check(
                &configure,
                "/usr/local/bin/ollama",
                &["launch", "codex-app", "--model", "glm-4.6:cloud", "--config", "-y"],
            );
            assert_eq!(configure_failure, "failed to configure codex-app");
            check(&open, "open", &["-a", "Codex"]);
            assert_eq!(open_failure, "failed to open Codex");
        }
        _ => panic!("codex-app has a plan of its own"),
    }
    match launch_agent(&agent("codex-app", false), "m", "ollama", &Vec::new()) {
        LaunchPlan::CodexApp { quit, .. } => assert!(quit.is_none()),
        _ => panic!("codex-app has a plan of its own"),
    }
}

#[test]
fn launching_gui_and_cli_agents() {
    let running = paths(&["/Applications/Visual Studio Code.app/Contents/MacOS/Electron"]);
    match launch_agent(&agent("vscode", true), "m", "ollama", &running) {
        LaunchPlan::Gui { quit, launch, failure } => {
            check(&quit.unwrap().ask, "osascript", &["-e", "tell application \"Visual Studio Code\" to quit"]);
            check(&launch, "ollama", &["launch", "vscode", "--model", "m", "-y"]);
            assert_eq!(failure, "failed to launch `vscode`");
        }
        _ => panic!("vscode is a GUI agent"),
    }
    match launch_agent(&agent("vscode", true), "m", "ollama", &Vec::new()) {
        LaunchPlan::Gui { quit, .. } => assert!(quit.is_none()),
        _ => panic!("vscode is a GUI agent"),
    }
    match launch_agent(&agent("opencode", false), "qwen3:cloud", "/opt/ollama \"bin\"", &running) {
        LaunchPlan::Cli { open_terminal, failure } => {
            check(
                &open_terminal,
                "osascript",
                &["-e", "tell application \"Terminal\"\nactivate\ndo script \"/opt/ollama \\\"bin\\\" launch opencode --model qwen3:cloud -y\"\nend tell"],
            );
            assert_eq!(failure, "failed to open Terminal for `opencode`");
        }
        _ => panic!("opencode is a CLI agent"),
    }
}

#[test]
fn spawning_into_terminals() {
    match Terminal::Kitty.spawn("echo hi") {
        Ok(SpawnPlan::Detached { command, failure }) => {
            check(&command, "open", &["-a", "kitty", "--args", "bash", "-lc", "echo hi"]);
            assert_eq!(failure, "failed to open kitty");
        }
        _ => panic!("kitty runs detached"),
    }
    match Terminal::ITerm2.spawn("say \"x\"") {
        Ok(SpawnPlan::Detached { command, failure }) => {
            check(
                &command,
                "osascript",
                &["-e", "tell application \"iTerm\"\nactivate\ncreate window with default profile command \"say \\\"x\\\"\"\nend tell"],
            );
            assert_eq!(failure, "failed to open iTerm2");
        }
        _ => panic!("iTerm2 runs detached"),
    }
    match Terminal::Warp.spawn("ls") {
        Ok(SpawnPlan::Clipboard { open, text }) => {
            check(&open, "open", &["-b", "dev.warp.Warp-Stable"]);
            assert_eq!(text, "ls");
        }
        _ => panic!("Warp goes through the clipboard"),
    }
    match Terminal::GnomeTerminal.spawn("ls") {
        Err(e) => assert_eq!(e, "GnomeTerminal is not available on macOS"),
        _ => panic!("GNOME Terminal is not a macOS terminal"),
    }
    match Terminal::Default.spawn("ls") {
        Ok(SpawnPlan::Detached { command, .. }) => {
            check(&command, "osascript", &["-e", "tell application \"Terminal\"\nactivate\ndo script \"ls\"\nend tell"]);
        }
        _ => panic!("Default runs in Terminal.app"),
    }
}

#[test]
fn login_path_is_split_at_colons() {
    assert_eq!(parse_login_path(""), None);
    assert_eq!(
        parse_login_path("/opt/homebrew/bin::/usr/bin:"),
        Some(vec!["/opt/homebrew/bin".to_string(), "/usr/bin".to_string()])
    );
    assert_eq!(parse_login_path(":"), Some(Vec::new()));
}

#[test]
fn rewritten_config_has_no_profile_line_and_is_stable() {
    for s in [
        "model = 1\nprofile = \"x\"\n",
        "  profile = a\r\nprofile = b\nkeep = 1 \n\n",
        "profile = 1",
        "x = 1\r\nprofile = 0\r\ny = 2",
        "\u{3000}profile = 1\n\u{e9} = 2\n",
    ] {
        let r = sanitize_codex_config(s).expect("these configs all change");
        assert!(r.lines().all(|l| !l.trim_start().starts_with("profile =")));
        // The rewrite has no profile line left, so it is left as it is.
        assert_eq!(sanitize_codex_config(&r), None, "{s:?}");
    }
}

#[test]
fn profile_line_before_blank_lines_is_removed() {
    let content = "a\nprofile = \"p\"".to_string() + &"\n".repeat(15);
    let expected = "a".to_string() + &"\n".repeat(15);
    assert_eq!(sanitize_codex_config(&content), Some(expected));
    // Nothing to remove: left as it is, whatever its trailing white space.
    assert_eq!(sanitize_codex_config("a = 1 \n\n\n"), None);
    assert_eq!(sanitize_codex_config("a = 1"), None);
}
