//! Launching an agent with a model through `ollama launch`, and telling
//! whether a GUI agent's app is running. The process table, the file
//! system and the processes themselves are the caller's; what to look
//! for, what to run and what to write is decided here.

use vstd::prelude::*;
use crate::process::{ProcessCommand, runs, views};
use crate::terminal::{terminal_do_script, terminal_script};
use crate::text::{
    str_eq, contains_str, occurs_in, lines, lines_of, leading_white_space, trim_start_of,
    joined, push_char, to_chars, split_fields, line_pieces,
    without_cr, lemma_split_fields_sep_free, lemma_split_joined,
};

verus! {

/// An agent `ollama launch` can start.
pub struct Agent {
    pub name: String,
    pub display: String,
    pub is_gui: bool,
}

/// For the GUI agents: the macOS application name used to quit the
/// app, and the name of its `.app` bundle.
pub open spec fn gui_app_of(agent: Seq<char>) -> Option<(Seq<char>, Seq<char>)> {
    if agent == "codex-app"@ {
        Some(("Codex"@, "Codex.app"@))
    } else if agent == "vscode"@ {
        Some(("Visual Studio Code"@, "Visual Studio Code.app"@))
    } else {
        None
    }
}

/// For the GUI agents: the application name used to quit the app, and
/// the name of its `.app` bundle.
pub fn gui_app(agent: &str) -> (app: Option<(&'static str, &'static str)>)
    ensures
        match app {
            Some((name, bundle)) => gui_app_of(agent@) == Some((name@, bundle@)),
            None => gui_app_of(agent@) is None,
        },
{
    if str_eq(agent, "codex-app") {
        Some(("Codex", "Codex.app"))
    } else if str_eq(agent, "vscode") {
        Some(("Visual Studio Code", "Visual Studio Code.app"))
    } else {
        None
    }
}

/// The part of an executable's path that marks the main executable of
/// the bundle: `<bundle>/Contents/MacOS/`. The `codex` CLI that lives
/// under `Contents/Resources` does not match it.
pub open spec fn main_executable_marker(bundle: Seq<char>) -> Seq<char> {
    bundle + "/Contents/MacOS/"@
}

/// Whether the agent's app runs, given the executable paths of the
/// running processes. CLI agents never count as running.
pub open spec fn running_of(agent: Agent, exe_paths: Seq<String>) -> bool {
    match gui_app_of(agent.name@) {
        Some((_, bundle)) => exists|i: int|
            0 <= i < exe_paths.len() && occurs_in(
                main_executable_marker(bundle),
                #[trigger] exe_paths[i]@,
            ),
        None => false,
    }
}

/// Is the agent's app running, given the executable paths of the
/// running processes?
pub fn agent_running(agent: &Agent, exe_paths: &Vec<String>) -> (running: bool)
    ensures
        running == running_of(*agent, exe_paths@),
{
    match gui_app(agent.name.as_str()) {
        Some((_, bundle)) => {
            let marker = String::from_str(bundle).concat("/Contents/MacOS/");
            let mut i: usize = 0;
            while i < exe_paths.len()
                invariant
                    i <= exe_paths.len(),
                    marker@ == main_executable_marker(bundle@),
                    gui_app_of(agent.name@) matches Some((_, b)) && b == bundle@,
                    forall|k: int| 0 <= k < i ==> !occurs_in(marker@, #[trigger] exe_paths@[k]@),
                decreases exe_paths.len() - i,
            {
                if contains_str(exe_paths[i].as_str(), marker.as_str()) {
                    return true;
                }
                i = i + 1;
            }
            false
        },
        None => false,
    }
}

/// The running state of each agent, from one scan of the process table.
pub fn running_states(agents: &Vec<Agent>, exe_paths: &Vec<String>) -> (states: Vec<bool>)
    ensures
        states.len() == agents.len(),
        forall|i: int| 0 <= i < agents.len() ==> states@[i] == running_of(#[trigger] agents@[i], exe_paths@),
{
    let mut states: Vec<bool> = Vec::new();
    let mut i: usize = 0;
    while i < agents.len()
        invariant
            i <= agents.len(),
            states.len() == i,
            forall|k: int| 0 <= k < i ==> states@[k] == running_of(#[trigger] agents@[k], exe_paths@),
        decreases agents.len() - i,
    {
        let r = agent_running(&agents[i], exe_paths);
        states.push(r);
        i = i + 1;
    }
    states
}


/// True for the legacy top-level `profile = "..."` line of the Codex
/// config, which current Codex rejects.
pub open spec fn is_profile_line(line: Seq<char>) -> bool {
    "profile ="@.is_prefix_of(trim_start_of(line))
}

/// The lines of the Codex config that are not `profile =` lines, in order.
pub open spec fn kept_lines(content: Seq<char>) -> Seq<Seq<char>> {
    lines_of(content).filter(|l: Seq<char>| !is_profile_line(l))
}

/// The Codex config without its `profile =` lines, the remaining lines
/// joined by line feeds.
pub open spec fn without_profile_lines(content: Seq<char>) -> Seq<char> {
    joined(kept_lines(content), "\n"@)
}

/// True when some line of the Codex config is a `profile =` line.
pub open spec fn has_profile_line(content: Seq<char>) -> bool {
    exists|i: int| 0 <= i < lines_of(content).len() && is_profile_line(#[trigger] lines_of(content)[i])
}

/// What the Codex config file is rewritten to, if anything: when it has
/// a `profile =` line, its other lines, in order, each ended by a line
/// feed; otherwise it is left as it is.
pub open spec fn codex_config_rewrite(content: Seq<char>) -> Option<Seq<char>> {
    if has_profile_line(content) {
        Some(without_profile_lines(content) + "\n"@)
    } else {
        None
    }
}

/// True when `line` is a `profile =` line.
fn profile_line(line: &Vec<char>, marker: &Vec<char>) -> (b: bool)
    requires
        marker@ == "profile ="@,
    ensures
        b == is_profile_line(line@),
{
    let k = leading_white_space(line);
    let ghost rest = line@.skip(k as int);
    if marker.len() > line.len() - k {
        return false;
    }
    assert(forall|t: int| 0 <= t < marker.len() ==> rest.subrange(0, marker.len() as int)[t] == line@[k + t]);
    let mut j: usize = 0;
    while j < marker.len()
        invariant
            j <= marker.len(),
            k + marker.len() <= line.len(),
            rest == line@.skip(k as int),
            rest == trim_start_of(line@),
            marker@ == "profile ="@,
            rest.subrange(0, j as int) =~= marker@.subrange(0, j as int),
        decreases marker.len() - j,
    {
        if line[k + j] != marker[j] {
            proof {
                assert(rest.subrange(0, marker.len() as int)[j as int] != marker@[j as int]);
                assert(!(marker@ =~= rest.subrange(0, marker.len() as int)));
            }
            return false;
        }
        proof {
            assert(rest.subrange(0, j + 1) =~= rest.subrange(0, j as int).push(rest[j as int]));
            assert(marker@.subrange(0, j + 1) =~= marker@.subrange(0, j as int).push(marker@[j as int]));
        }
        j = j + 1;
    }
    proof {
        assert(marker@.subrange(0, marker.len() as int) =~= marker@);
    }
    true
}

/// The new content of the Codex config (`~/.codex/config.toml`), or
/// `None` when it is to be left as it is: the legacy top-level
/// `profile = "..."` lines that `ollama launch codex-app` writes are
/// removed.
pub fn sanitize_codex_config(content: &str) -> (rewrite: Option<String>)
    ensures
        match rewrite {
            Some(r) => codex_config_rewrite(content@) == Some(r@),
            None => codex_config_rewrite(content@) is None,
        },
{
    let ls = lines(content);
    let ghost lv = ls@.map_values(|l: Vec<char>| l@);
    let ghost pred = |l: Seq<char>| !is_profile_line(l);
    let marker = to_chars("profile =");
    let mut cleaned = String::new();
    let mut kept: usize = 0;
    let mut removed = false;
    let mut i: usize = 0;
    proof {
        reveal_strlit("\n");
        assert(lv.take(0) =~= Seq::<Seq<char>>::empty());
        reveal_with_fuel(Seq::<_>::filter, 1);
    }
    while i < ls.len()
        invariant
            i <= ls.len(),
            lv == ls@.map_values(|l: Vec<char>| l@),
            lv == lines_of(content@),
            marker@ == "profile ="@,
            pred == (|l: Seq<char>| !is_profile_line(l)),
            "\n"@ == seq!['\n'],
            kept == lv.take(i as int).filter(pred).len(),
            removed == exists|k: int| 0 <= k < i && is_profile_line(#[trigger] lv[k]),
            cleaned@ == joined(lv.take(i as int).filter(pred), "\n"@),
        decreases ls.len() - i,
    {
        let line = &ls[i];
        proof {
            assert(lv[i as int] == line@);
            assert(lv.take(i + 1) =~= lv.take(i as int).push(line@));
            lv.take(i as int).lemma_filter_push(line@, pred);
        }
        if !profile_line(line, &marker) {
            let ghost before = cleaned@;
            let ghost prev = lv.take(i as int).filter(pred);
            if kept > 0 {
                push_char(&mut cleaned, '\n');
            }
            let mut k: usize = 0;
            while k < line.len()
                invariant
                    k <= line.len(),
                    cleaned@ == (if kept > 0 {
                        before + "\n"@
                    } else {
                        before
                    }) + line@.take(k as int),
                    "\n"@ == seq!['\n'],
                decreases line.len() - k,
            {
                push_char(&mut cleaned, line[k]);
                proof {
                    assert(line@.take(k + 1) =~= line@.take(k as int).push(line@[k as int]));
                }
                k = k + 1;
            }
            proof {
                assert(line@.take(line.len() as int) =~= line@);
                let next = prev.push(line@);
                assert(next.drop_last() =~= prev);
                if kept == 0 {
                    assert(prev.len() == 0);
                    assert(before =~= Seq::<char>::empty());
                    assert(cleaned@ =~= joined(next, "\n"@));
                } else {
                    assert(cleaned@ =~= joined(next, "\n"@));
                }
            }
            kept = kept + 1;
        } else {
            removed = true;
        }
        i = i + 1;
    }
    proof {
        assert(lv.take(ls.len() as int) =~= lv);
    }
    if removed {
        Some(cleaned.concat("\n"))
    } else {
        None
    }
}


/// How to quit a GUI app: ask it through AppleScript, give it
/// `wait_ms` milliseconds, then kill whatever is left by name.
pub struct QuitPlan {
    pub ask: ProcessCommand,
    pub wait_ms: u64,
    pub kill: ProcessCommand,
}

/// True when `q` quits the app named `app`.
pub open spec fn quits(q: QuitPlan, app: Seq<char>) -> bool {
    &&& runs(q.ask, "osascript"@, seq!["-e"@, "tell application \""@ + app + "\" to quit"@])
    &&& q.wait_ms == 1200
    &&& runs(q.kill, "killall"@, seq![app])
}

/// How to quit the GUI app `app_name` gracefully, with a `killall`
/// fallback (the executable's name is the app's name).
pub fn quit_gui(app_name: &str) -> (q: QuitPlan)
    ensures
        quits(q, app_name@),
{
    let mut ask = ProcessCommand::new("osascript");
    ask.arg("-e");
    let script = String::from_str("tell application \"").concat(app_name).concat("\" to quit");
    ask.arg(script.as_str());
    let mut kill = ProcessCommand::new("killall");
    kill.arg(app_name);
    proof {
        assert(views(ask.args@) =~= seq!["-e"@, "tell application \""@ + app_name@ + "\" to quit"@]);
        assert(views(kill.args@) =~= seq![app_name@]);
    }
    QuitPlan { ask, wait_ms: 1200, kill }
}

/// What launching an agent takes.
pub enum LaunchPlan {
    /// Codex App: quit it when it runs, configure it through `ollama
    /// launch ... --config` (which does not open it) and wait for that,
    /// rewrite the Codex config as `sanitize_codex_config` says, then
    /// open the app.
    CodexApp {
        quit: Option<QuitPlan>,
        configure: ProcessCommand,
        configure_failure: String,
        open: ProcessCommand,
        open_failure: String,
    },
    /// Another GUI agent: quit it when it runs, then start `launch`,
    /// which configures the integration and opens the app.
    Gui { quit: Option<QuitPlan>, launch: ProcessCommand, failure: String },
    /// A CLI agent: start `open_terminal`, which runs the launch command
    /// in a new Terminal.app window.
    Cli { open_terminal: ProcessCommand, failure: String },
}

/// The shell command that launches a CLI agent.
pub open spec fn cli_command(ollama_bin: Seq<char>, agent: Seq<char>, model: Seq<char>) -> Seq<char> {
    ollama_bin + " launch "@ + agent + " --model "@ + model + " -y"@
}

/// True when `quit` quits the app named `app` exactly when `running`.
pub open spec fn quits_if(quit: Option<QuitPlan>, app: Option<Seq<char>>, running: bool) -> bool {
    match app {
        Some(name) => if running {
            quit matches Some(q) && quits(q, name)
        } else {
            quit is None
        },
        None => quit is None,
    }
}

/// What launching `agent` with `model` takes, `ollama_bin` being the
/// path of the `ollama` binary and `exe_paths` the executable paths of
/// the running processes.
pub open spec fn launch_plan_of(
    agent: Agent,
    model: Seq<char>,
    ollama_bin: Seq<char>,
    exe_paths: Seq<String>,
    plan: LaunchPlan,
) -> bool {
    let name = agent.name@;
    let running = running_of(agent, exe_paths);
    if name == "codex-app"@ {
        plan matches LaunchPlan::CodexApp { quit, configure, configure_failure, open, open_failure }
            && quits_if(quit, Some("Codex"@), running) && runs(
            configure,
            ollama_bin,
            seq!["launch"@, "codex-app"@, "--model"@, model, "--config"@, "-y"@],
        ) && configure_failure@ == "failed to configure codex-app"@ && runs(
            open,
            "open"@,
            seq!["-a"@, "Codex"@],
        ) && open_failure@ == "failed to open Codex"@
    } else if agent.is_gui {
        plan matches LaunchPlan::Gui { quit, launch, failure } && quits_if(
            quit,
            match gui_app_of(name) {
                Some((app, _)) => Some(app),
                None => None,
            },
            running,
        ) && runs(launch, ollama_bin, seq!["launch"@, name, "--model"@, model, "-y"@])
            && failure@ == "failed to launch `"@ + name + "`"@
    } else {
        plan matches LaunchPlan::Cli { open_terminal, failure } && runs(
            open_terminal,
            "osascript"@,
            seq!["-e"@, terminal_script(cli_command(ollama_bin, name, model))],
        ) && failure@ == "failed to open Terminal for `"@ + name + "`"@
    }
}

/// What launching (or relaunching) `agent` with `model` through
/// `ollama launch` takes; an agent that is already running is closed
/// first.
pub fn launch_agent(agent: &Agent, model: &str, ollama_bin: &str, exe_paths: &Vec<String>) -> (plan:
    LaunchPlan)
    ensures
        launch_plan_of(*agent, model@, ollama_bin@, exe_paths@, plan),
{
    let name = agent.name.as_str();
    if str_eq(name, "codex-app") {
        let quit = if agent_running(agent, exe_paths) {
            Some(quit_gui("Codex"))
        } else {
            None
        };
        let mut configure = ProcessCommand::new(ollama_bin);
        configure.arg("launch");
        configure.arg("codex-app");
        configure.arg("--model");
        configure.arg(model);
        configure.arg("--config");
        configure.arg("-y");
        let mut open = ProcessCommand::new("open");
        open.arg("-a");
        open.arg("Codex");
        proof {
            assert(views(configure.args@) =~= seq![
                "launch"@,
                "codex-app"@,
                "--model"@,
                model@,
                "--config"@,
                "-y"@,
            ]);
            assert(views(open.args@) =~= seq!["-a"@, "Codex"@]);
        }
        LaunchPlan::CodexApp {
            quit,
            configure,
            configure_failure: String::from_str("failed to configure codex-app"),
            open,
            open_failure: String::from_str("failed to open Codex"),
        }
    } else if agent.is_gui {
        let quit = match gui_app(name) {
            Some((app_name, _)) => if agent_running(agent, exe_paths) {
                Some(quit_gui(app_name))
            } else {
                None
            },
            None => None,
        };
        let mut launch = ProcessCommand::new(ollama_bin);
        launch.arg("launch");
        launch.arg(name);
        launch.arg("--model");
        launch.arg(model);
        launch.arg("-y");
        proof {
            assert(views(launch.args@) =~= seq!["launch"@, name@, "--model"@, model@, "-y"@]);
        }
        let failure = String::from_str("failed to launch `").concat(name).concat("`");
        LaunchPlan::Gui { quit, launch, failure }
    } else {
        let cmd = String::from_str(ollama_bin).concat(" launch ").concat(name).concat(
            " --model ",
        ).concat(model).concat(" -y");
        let script = terminal_do_script(cmd.as_str());
        let mut open_terminal = ProcessCommand::new("osascript");
        open_terminal.arg("-e");
        open_terminal.arg(script.as_str());
        proof {
            assert(cmd@ == cli_command(ollama_bin@, name@, model@));
            assert(views(open_terminal.args@) =~= seq!["-e"@, terminal_script(cmd@)]);
        }
        let failure = String::from_str("failed to open Terminal for `").concat(name).concat("`");
        LaunchPlan::Cli { open_terminal, failure }
    }
}


/// White space is dropped from the front the same way whatever follows.
proof fn lemma_trim_start_push(p: Seq<char>, c: char)
    requires
        trim_start_of(p).len() > 0,
    ensures
        trim_start_of(p.push(c)) == trim_start_of(p).push(c),
    decreases p.len(),
{
    if p.len() > 0 && crate::text::is_white_space(p[0]) {
        assert(p.push(c).drop_first() =~= p.drop_first().push(c));
        lemma_trim_start_push(p.drop_first(), c);
    }
}

/// A line that is not a `profile =` line does not become one when a
/// trailing carriage return is dropped.
proof fn lemma_without_cr_keeps_non_profile(line: Seq<char>)
    requires
        !is_profile_line(line),
    ensures
        !is_profile_line(without_cr(line)),
{
    if line.len() > 0 && line.last() == '\r' {
        let p = line.drop_last();
        assert(p.push('\r') =~= line);
        if is_profile_line(p) {
            reveal_strlit("profile =");
            lemma_trim_start_push(p, '\r');
            let t = trim_start_of(p);
            assert(t.push('\r').subrange(0, 9) =~= t.subrange(0, 9));
        }
    }
}

/// No line of `lines_of(s)` holds a line feed.
proof fn lemma_lines_lf_free(s: Seq<char>)
    ensures
        forall|i: int| 0 <= i < lines_of(s).len() ==> !(#[trigger] lines_of(s)[i]).contains('\n'),
{
    if s.len() > 0 {
        let body = if s.last() == '\n' {
            s.drop_last()
        } else {
            s
        };
        lemma_split_fields_sep_free(body, '\n');
        let pieces = line_pieces(s);
        assert(pieces == split_fields(body, '\n'));
        assert forall|i: int| 0 <= i < lines_of(s).len() implies !(#[trigger] lines_of(s)[i]).contains(
            '\n',
        ) by {
            let p = pieces[i];
            assert(!p.contains('\n'));
            let l = lines_of(s)[i];
            assert forall|k: int| 0 <= k < l.len() implies l[k] != '\n' by {
                assert(l[k] == p[k]);
            }
        }
    }
}

/// The Codex config is rewritten exactly when it has a `profile =`
/// line; the rewritten config holds no `profile =` line, so it is not
/// rewritten again.
pub proof fn lemma_rewrite_has_no_profile_line(content: Seq<char>)
    ensures
        has_profile_line(content) <==> codex_config_rewrite(content) is Some,
        codex_config_rewrite(content) matches Some(r) ==> forall|i: int|
            0 <= i < lines_of(r).len() ==> !is_profile_line(#[trigger] lines_of(r)[i]),
        codex_config_rewrite(content) matches Some(r) ==> codex_config_rewrite(r) is None,
        forall|i: int|
            0 <= i < lines_of(without_profile_lines(content) + "\n"@).len() ==> !is_profile_line(
                #[trigger] lines_of(without_profile_lines(content) + "\n"@)[i],
            ),
{
    reveal_strlit("\n");
    reveal_strlit("profile =");
    let pred = |l: Seq<char>| !is_profile_line(l);
    let kept = lines_of(content).filter(pred);
    let cleaned = without_profile_lines(content);
    let r = cleaned + "\n"@;
    assert("\n"@ =~= seq!['\n']);
    assert(cleaned == joined(kept, seq!['\n']));
    assert(r.drop_last() =~= cleaned);
    assert(r.last() == '\n');
    lemma_lines_lf_free(content);
    assert forall|i: int| 0 <= i < kept.len() implies !(#[trigger] kept[i]).contains('\n') && !is_profile_line(kept[i]) by {
        lines_of(content).lemma_filter_pred(pred, i);
        assert(kept.contains(kept[i]));
        lines_of(content).lemma_filter_contains_rev(pred, kept[i]);
        let j = choose|j: int| 0 <= j < lines_of(content).len() && lines_of(content)[j] == kept[i];
        assert(!lines_of(content)[j].contains('\n'));
    }
    if kept.len() == 0 {
        assert(cleaned =~= Seq::<char>::empty());
        assert(split_fields(cleaned, '\n') =~= seq![Seq::<char>::empty()]);
        assert forall|i: int| 0 <= i < lines_of(r).len() implies !is_profile_line(#[trigger] lines_of(r)[i]) by {
            assert(lines_of(r)[i] =~= Seq::<char>::empty());
            assert(trim_start_of(Seq::<char>::empty()) =~= Seq::<char>::empty());
        }
    } else {
        lemma_split_joined(kept, '\n');
        assert(line_pieces(r) == kept);
        assert forall|i: int| 0 <= i < lines_of(r).len() implies !is_profile_line(#[trigger] lines_of(r)[i]) by {
            assert(lines_of(r)[i] == without_cr(kept[i]));
            lemma_without_cr_keeps_non_profile(kept[i]);
        }
    }
}


/// Filtering keeps a sequence whose every element passes.
proof fn lemma_filter_all<A>(s: Seq<A>, pred: spec_fn(A) -> bool)
    requires
        forall|i: int| 0 <= i < s.len() ==> pred(#[trigger] s[i]),
    ensures
        s.filter(pred) == s,
    decreases s.len(),
{
    reveal_with_fuel(Seq::<_>::filter, 1);
    if s.len() > 0 {
        let init = s.drop_last();
        assert forall|i: int| 0 <= i < init.len() implies pred(#[trigger] init[i]) by {
            assert(init[i] == s[i]);
        }
        lemma_filter_all(init, pred);
        assert(s =~= init.push(s.last()));
        init.lemma_filter_push(s.last(), pred);
        assert(pred(s[s.len() - 1]));
    }
}

/// Cleaning the rewritten Codex config again removes nothing more, as
/// long as no kept line ends with a carriage return that no line feed
/// followed.
pub proof fn lemma_sanitize_is_stable(content: Seq<char>)
    requires
        forall|i: int|
            0 <= i < kept_lines(content).len() ==> (#[trigger] kept_lines(content)[i]).len() == 0
                || kept_lines(content)[i].last() != '\r',
    ensures
        without_profile_lines(without_profile_lines(content) + "\n"@) == without_profile_lines(content),
{
    reveal_strlit("\n");
    assert("\n"@ =~= seq!['\n']);
    let pred = |l: Seq<char>| !is_profile_line(l);
    let kept = lines_of(content).filter(pred);
    let cleaned = without_profile_lines(content);
    let r = cleaned + "\n"@;
    assert(r.drop_last() =~= cleaned);
    lemma_rewrite_has_no_profile_line(content);
    lemma_lines_lf_free(content);
    assert forall|i: int| 0 <= i < kept.len() implies !(#[trigger] kept[i]).contains('\n') by {
        assert(kept.contains(kept[i]));
        lines_of(content).lemma_filter_contains_rev(pred, kept[i]);
        let j = choose|j: int| 0 <= j < lines_of(content).len() && lines_of(content)[j] == kept[i];
        assert(!lines_of(content)[j].contains('\n'));
    }
    let again = lines_of(r);
    assert forall|i: int| 0 <= i < again.len() implies pred(#[trigger] again[i]) by {}
    lemma_filter_all(again, pred);
    if kept.len() == 0 {
        assert(cleaned =~= Seq::<char>::empty());
        assert(split_fields(cleaned, '\n') =~= seq![Seq::<char>::empty()]);
        assert(again =~= seq![Seq::<char>::empty()]);
        assert(joined(again, "\n"@) =~= Seq::<char>::empty());
    } else {
        lemma_split_joined(kept, '\n');
        assert forall|i: int| 0 <= i < again.len() implies #[trigger] again[i] == kept[i] by {
            assert(again[i] == without_cr(kept[i]));
            assert(kept[i] == kept_lines(content)[i]);
        }
        assert(again =~= kept);
    }
}


/// The rewritten Codex config has, line for line, the lines of the
/// original that are not `profile =` lines, in order; except where no
/// line is kept (the rewrite is then a single empty line), or where a
/// kept line ends with a carriage return that no line feed followed.
pub proof fn lemma_rewrite_keeps_other_lines(content: Seq<char>)
    requires
        kept_lines(content).len() > 0,
        forall|i: int|
            0 <= i < kept_lines(content).len() ==> (#[trigger] kept_lines(content)[i]).len() == 0
                || kept_lines(content)[i].last() != '\r',
    ensures
        lines_of(without_profile_lines(content) + "\n"@) == kept_lines(content),
{
    reveal_strlit("\n");
    assert("\n"@ =~= seq!['\n']);
    let pred = |l: Seq<char>| !is_profile_line(l);
    let kept = kept_lines(content);
    let cleaned = without_profile_lines(content);
    let r = cleaned + "\n"@;
    assert(cleaned == joined(kept, seq!['\n']));
    assert(r.drop_last() =~= cleaned);
    assert(r.last() == '\n');
    lemma_lines_lf_free(content);
    assert forall|i: int| 0 <= i < kept.len() implies !(#[trigger] kept[i]).contains('\n') by {
        assert(kept.contains(kept[i]));
        lines_of(content).lemma_filter_contains_rev(pred, kept[i]);
        let j = choose|j: int| 0 <= j < lines_of(content).len() && lines_of(content)[j] == kept[i];
        assert(!lines_of(content)[j].contains('\n'));
    }
    lemma_split_joined(kept, '\n');
    assert(line_pieces(r) == kept);
    assert forall|i: int| 0 <= i < lines_of(r).len() implies #[trigger] lines_of(r)[i] == kept[i] by {
        assert(lines_of(r)[i] == without_cr(kept[i]));
    }
    assert(lines_of(r) =~= kept);
}


/// An agent's app runs exactly when one of the executable paths, taken
/// on its own, shows it running: what the other paths are, and in what
/// order they come, does not matter.
pub proof fn lemma_running_any_path(agent: Agent, exe_paths: Seq<String>)
    ensures
        running_of(agent, exe_paths) <==> exists|i: int|
            0 <= i < exe_paths.len() && running_of(agent, seq![#[trigger] exe_paths[i]]),
{
    if running_of(agent, exe_paths) {
        let (_, bundle) = gui_app_of(agent.name@).unwrap();
        let i = choose|i: int|
            0 <= i < exe_paths.len() && occurs_in(
                main_executable_marker(bundle),
                #[trigger] exe_paths[i]@,
            );
        assert(seq![exe_paths[i]][0] == exe_paths[i]);
        assert(running_of(agent, seq![exe_paths[i]]));
    }
    if exists|i: int| 0 <= i < exe_paths.len() && running_of(agent, seq![#[trigger] exe_paths[i]]) {
        let i = choose|i: int| 0 <= i < exe_paths.len() && running_of(agent, seq![#[trigger] exe_paths[i]]);
        let (_, bundle) = gui_app_of(agent.name@).unwrap();
        assert(seq![exe_paths[i]][0] == exe_paths[i]);
        assert(occurs_in(main_executable_marker(bundle), exe_paths[i]@));
    }
}

/// More processes never stop an app from counting as running, wherever
/// the new paths come.
pub proof fn lemma_running_grows(agent: Agent, exe_paths: Seq<String>, more: Seq<String>)
    ensures
        running_of(agent, exe_paths) ==> running_of(agent, exe_paths + more),
        running_of(agent, exe_paths) ==> running_of(agent, more + exe_paths),
{
    lemma_running_any_path(agent, exe_paths);
    lemma_running_any_path(agent, exe_paths + more);
    lemma_running_any_path(agent, more + exe_paths);
    if running_of(agent, exe_paths) {
        let i = choose|i: int| 0 <= i < exe_paths.len() && running_of(agent, seq![#[trigger] exe_paths[i]]);
        assert((exe_paths + more)[i] == exe_paths[i]);
        assert((more + exe_paths)[more.len() + i] == exe_paths[i]);
    }
}

/// The Codex app runs exactly when some process's executable lies under
/// `Codex.app/Contents/MacOS/`; Visual Studio Code likewise under
/// `Visual Studio Code.app/Contents/MacOS/`; an agent with no app never
/// runs.
pub proof fn lemma_running_apps(agent: Agent, exe_paths: Seq<String>)
    ensures
        agent.name@ == "codex-app"@ ==> (running_of(agent, exe_paths) <==> exists|i: int|
            0 <= i < exe_paths.len() && occurs_in(
                "Codex.app/Contents/MacOS/"@,
                #[trigger] exe_paths[i]@,
            )),
        agent.name@ == "vscode"@ ==> (running_of(agent, exe_paths) <==> exists|i: int|
            0 <= i < exe_paths.len() && occurs_in(
                "Visual Studio Code.app/Contents/MacOS/"@,
                #[trigger] exe_paths[i]@,
            )),
        gui_app_of(agent.name@) is None ==> !running_of(agent, exe_paths),
{
    reveal_strlit("Codex.app");
    reveal_strlit("/Contents/MacOS/");
    reveal_strlit("Codex.app/Contents/MacOS/");
    reveal_strlit("Visual Studio Code.app");
    reveal_strlit("Visual Studio Code.app/Contents/MacOS/");
    assert("Codex.app"@ + "/Contents/MacOS/"@ =~= "Codex.app/Contents/MacOS/"@);
    assert("Visual Studio Code.app"@ + "/Contents/MacOS/"@ =~= "Visual Studio Code.app/Contents/MacOS/"@);
    reveal_strlit("vscode");
    reveal_strlit("codex-app");
    if agent.name@ == "vscode"@ {
        assert(agent.name@.len() != "codex-app"@.len());
        assert(gui_app_of(agent.name@) == Some(("Visual Studio Code"@, "Visual Studio Code.app"@)));
    }
}

/// Every GUI agent but the Codex app, known to `gui_app` or not, is
/// launched by `ollama launch <agent> --model <model> -y`, which opens
/// it; a running app is quit first, and nothing is quit unless it runs.
pub proof fn lemma_gui_agents_launch_through_ollama(
    agent: Agent,
    model: Seq<char>,
    ollama_bin: Seq<char>,
    exe_paths: Seq<String>,
    plan: LaunchPlan,
)
    requires
        launch_plan_of(agent, model, ollama_bin, exe_paths, plan),
        agent.is_gui,
        agent.name@ != "codex-app"@,
    ensures
        plan matches LaunchPlan::Gui { launch, .. } && launch.program@ == ollama_bin && views(
            launch.args@,
        ) == seq!["launch"@, agent.name@, "--model"@, model, "-y"@],
        plan matches LaunchPlan::Gui { quit, .. } && (quit is Some ==> running_of(agent, exe_paths)),
        gui_app_of(agent.name@) is Some && running_of(agent, exe_paths) ==> (
        plan matches LaunchPlan::Gui { quit, .. } && quit matches Some(q) && q.kill.program@
            == "killall"@ && views(q.kill.args@) == seq![
            match gui_app_of(agent.name@) {
                Some((app, _)) => app,
                None => Seq::empty(),
            },
        ]),
{
}

/// An agent that is neither the Codex app nor a GUI agent runs in a new
/// Terminal.app window, whose script runs `<ollama> launch <agent>
/// --model <model> -y`.
pub proof fn lemma_cli_agents_run_in_terminal(
    agent: Agent,
    model: Seq<char>,
    ollama_bin: Seq<char>,
    exe_paths: Seq<String>,
    plan: LaunchPlan,
)
    requires
        launch_plan_of(agent, model, ollama_bin, exe_paths, plan),
        !agent.is_gui,
        agent.name@ != "codex-app"@,
    ensures
        plan matches LaunchPlan::Cli { open_terminal, .. } && open_terminal.program@ == "osascript"@
            && views(open_terminal.args@) == seq![
            "-e"@,
            terminal_script(ollama_bin + " launch "@ + agent.name@ + " --model "@ + model + " -y"@),
        ],
{
}

/// The Codex app is configured by `ollama launch codex-app --model
/// <model> --config -y` and then opened by `open -a Codex`; it is quit
/// first exactly when it runs.
pub proof fn lemma_codex_app_flow(
    agent: Agent,
    model: Seq<char>,
    ollama_bin: Seq<char>,
    exe_paths: Seq<String>,
    plan: LaunchPlan,
)
    requires
        launch_plan_of(agent, model, ollama_bin, exe_paths, plan),
        agent.name@ == "codex-app"@,
    ensures
        plan matches LaunchPlan::CodexApp { quit, configure, open, .. } && configure.program@
            == ollama_bin && views(configure.args@) == seq![
            "launch"@,
            "codex-app"@,
            "--model"@,
            model,
            "--config"@,
            "-y"@,
        ] && open.program@ == "open"@ && views(open.args@) == seq!["-a"@, "Codex"@] && (quit is Some
            <==> running_of(agent, exe_paths)),
{
}

} // verus!
