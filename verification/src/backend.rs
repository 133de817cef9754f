//! The shell's view of the backend: status snapshots and the decisions taken while
//! starting dsh web and installing the starter plugins.

use vstd::prelude::*;
use vstd::string::*;
use crate::config::{DshConfig, LaunchMode, url_for};
use crate::dsh::{can_launch_local, STARTER_PLUGINS};
use crate::text::{
    chars_of, contains, contains_of, opt_view, push_chars, push_str, string_of,
};

verus! {

/// Phase of the backend shown on the settings page.
#[derive(Debug, Clone, Copy, PartialEq, Eq, Structural)]
pub enum StatusState {
    Idle,
    Installing,
    Starting,
    Ready,
    Updating,
    Error,
}

/// Live backend snapshot published to the settings page.
#[derive(Debug, Clone)]
pub struct BackendStatus {
    pub state: StatusState,
    pub url: Option<String>,
    pub message: Option<String>,
    pub config: DshConfig,
    pub installed_version: Option<String>,
    pub latest_version: Option<String>,
    pub can_launch_local: bool,
    pub platform: String,
}

/// `config`, switched to connect mode where the platform cannot spawn dsh.
pub fn config_for_platform(config: DshConfig, os: &str) -> (r: DshConfig)
    ensures
        r.host@ == config.host@,
        r.port == config.port,
        r.auto_start == config.auto_start,
        r.launch_mode == if os@ != "android"@ && os@ != "ios"@ {
            config.launch_mode
        } else {
            LaunchMode::Connect
        },
{
    let mut config = config;
    if !can_launch_local(os) {
        config.launch_mode = LaunchMode::Connect;
    }
    config
}

/// The default settings for the platform `os`.
pub fn default_config_for_platform(os: &str) -> (r: DshConfig)
    ensures
        r.host@ == "127.0.0.1"@,
        r.port == 3080,
        r.auto_start,
        r.launch_mode == if os@ != "android"@ && os@ != "ios"@ {
            LaunchMode::Local
        } else {
            LaunchMode::Connect
        },
{
    config_for_platform(DshConfig::default(), os)
}

/// The URL to probe while dsh web starts: the one it announced, else the configured
/// one when the port is concrete.
/// The URL probed while dsh web starts (`ready_candidate`).
pub open spec fn candidate_url(found: Option<Seq<char>>, config: DshConfig) -> Option<Seq<char>> {
    match found {
        Some(u) => Some(u),
        None => if config.port == 0 {
            None
        } else {
            Some(url_for(config.host@, config.port))
        },
    }
}

pub fn ready_candidate(found: Option<String>, config: &DshConfig) -> (r: Option<String>)
    ensures
        opt_view(r) == candidate_url(opt_view(found), *config),
{
    match found {
        Some(u) => Some(u),
        None => {
            if config.port == 0 {
                None
            } else {
                match config.web_url() {
                    Ok(u) => Some(u),
                    Err(_) => None,
                }
            }
        },
    }
}

/// How many log lines a failure message repeats.
pub const TAIL_LINES: usize = 12;

/// The last (at most 12) log lines, each after a newline; empty when there are none.
pub open spec fn tail_text(lines: Seq<Seq<char>>) -> Seq<char> {
    if lines.len() == 0 {
        Seq::empty()
    } else {
        let start = if lines.len() > 12 { lines.len() - 12 } else { 0 };
        seq!['\n'] + crate::path::names_text(lines.subrange(start as int, lines.len() as int), '\n')
    }
}

/// The tail of the spawn log appended to failure messages.
pub fn log_tail(lines: &Vec<String>) -> (r: String)
    ensures
        r@ == tail_text(crate::dsh::texts(lines@)),
{
    if lines.len() == 0 {
        return String::new();
    }
    let start = if lines.len() > TAIL_LINES { lines.len() - TAIL_LINES } else { 0 };
    let ghost all = crate::dsh::texts(lines@);
    let mut out: Vec<char> = vec!['\n'];
    let mut i = start;
    while i < lines.len()
        invariant
            start <= i <= lines.len(),
            start < lines.len(),
            all == crate::dsh::texts(lines@),
            out@ == seq!['\n'] + crate::path::names_text(all.subrange(start as int, i as int), '\n'),
        decreases lines.len() - i,
    {
        proof {
            let sub = all.subrange(start as int, i + 1);
            assert(sub.drop_last() =~= all.subrange(start as int, i as int));
            assert(sub.last() == lines@[i as int]@);
            if i == start {
                assert(all.subrange(start as int, i as int) =~= Seq::<Seq<char>>::empty());
            }
        }
        if i > start {
            out.push('\n');
        }
        push_chars(&mut out, &chars_of(lines[i].as_str()));
        proof {
            if i == start {
                assert(out@ =~= seq!['\n'] + lines@[i as int]@);
            }
        }
        i += 1;
    }
    string_of(&out)
}

/// Failure message when dsh web did not get ready in time.
pub fn not_ready_message(lines: &Vec<String>) -> (r: String)
    ensures
        r@ == "dsh web did not become ready within 90s."@ + tail_text(crate::dsh::texts(lines@)),
{
    let mut out = chars_of("dsh web did not become ready within 90s.");
    push_chars(&mut out, &chars_of(log_tail(lines).as_str()));
    string_of(&out)
}

/// Failure message when dsh web exited (with the exit status spelled `status`)
/// before it was ready.
pub fn exited_message(status: &str, lines: &Vec<String>) -> (r: String)
    ensures
        r@ == "dsh web exited ("@ + status@ + ") before it was ready."@ + tail_text(crate::dsh::texts(lines@)),
{
    let mut out = chars_of("dsh web exited (");
    push_str(&mut out, status);
    push_str(&mut out, ") before it was ready.");
    push_chars(&mut out, &chars_of(log_tail(lines).as_str()));
    string_of(&out)
}

/// The index page shows a boot manifest (`__DSH_BOOT__`) that lists both the
/// `connection` and `typert` entries; before that the web UI loads a partial graph.
pub open spec fn boot_ready(html: Seq<char>) -> bool {
    contains(html, "__DSH_BOOT__"@) && contains(html, "connection"@) && contains(html, "typert"@)
}

/// Whether the fetched index page is ready to be shown.
pub fn boot_manifest_ready(html: &str) -> (r: bool)
    ensures
        r == boot_ready(html@),
{
    let h = chars_of(html);
    contains_of(&h, &chars_of("__DSH_BOOT__")) && contains_of(&h, &chars_of("connection"))
        && contains_of(&h, &chars_of("typert"))
}

} // verus!

verus! {

/// The labels of `STARTER_PLUGINS`.
pub open spec fn starter_labels() -> Seq<Seq<char>> {
    seq!["dsh-web-ui"@, "Transparent UI"@, "better-sidebar"@, "dsh-visualize"@]
}

/// The install specs of `STARTER_PLUGINS`.
pub open spec fn starter_specs() -> Seq<Seq<char>> {
    seq![
        "github:zhu1090093659/dsh-web-ui"@,
        "github:WYH66666666/DSH-Transparent-UI-Plugin"@,
        "github:omdsh-dev/DSH-better-sidebar"@,
        "github:Nagi-ovo/dsh-visualize"@,
    ]
}

/// The table `STARTER_PLUGINS` holds exactly these labels and specs.
pub proof fn lemma_starter_plugins(i: int)
    requires
        0 <= i < 4,
    ensures
        STARTER_PLUGINS@[i].0@ == starter_labels()[i],
        STARTER_PLUGINS@[i].1@ == starter_specs()[i],
{
}

/// How one `dsh plugin add` run ended.
#[derive(Debug, Clone)]
pub enum PluginOutcome {
    Installed,
    Failed(String),
    TimedOut,
}

/// Whether the first-launch record `done` already lists `spec`.
pub fn starter_plugin_done(done: &Vec<String>, spec: &str) -> (r: bool)
    ensures
        r == crate::dsh::texts(done@).contains(spec@),
{
    let s = chars_of(spec);
    let mut i: usize = 0;
    while i < done.len()
        invariant
            i <= done.len(),
            s@ == spec@,
            forall|j: int| 0 <= j < i ==> done@[j]@ != spec@,
        decreases done.len() - i,
    {
        if crate::text::same(&chars_of(done[i].as_str()), &s) {
            assert(crate::dsh::texts(done@)[i as int] == spec@);
            return true;
        }
        i += 1;
    }
    assert forall|j: int| 0 <= j < done@.len() implies crate::dsh::texts(done@)[j] != spec@ by {
        assert(crate::dsh::texts(done@)[j] == done@[j]@);
    }
    false
}

/// Progress message while installing starter plugin `index` (0-based).
pub fn installing_plugin_message(index: usize) -> (r: String)
    requires
        index < 4,
    ensures
        r@ == "Installing plugin "@ + crate::numbers::decimal((index + 1) as nat) + "/"@
            + crate::numbers::decimal(4) + ": "@ + starter_labels()[index as int],
{
    proof { lemma_starter_plugins(index as int); }
    let mut out = chars_of("Installing plugin ");
    push_chars(&mut out, &crate::numbers::decimal_of((index + 1) as u64));
    push_str(&mut out, "/");
    push_chars(&mut out, &crate::numbers::decimal_of(STARTER_PLUGINS.len() as u64));
    push_str(&mut out, ": ");
    push_str(&mut out, STARTER_PLUGINS[index].0);
    string_of(&out)
}

/// The command echoed to the spawn log before adding a plugin.
pub fn plugin_command_log(spec: &str) -> (r: String)
    ensures
        r@ == "$ dsh plugin --profile web add "@ + spec@,
{
    let mut out = chars_of("$ dsh plugin --profile web add ");
    push_str(&mut out, spec);
    string_of(&out)
}

/// Whether an outcome marks the plugin as present from now on.
pub open spec fn settles(outcome: PluginOutcome) -> bool {
    match outcome {
        PluginOutcome::Installed => true,
        PluginOutcome::Failed(e) => crate::dsh::benign_plugin_error(e@),
        PluginOutcome::TimedOut => false,
    }
}

/// Records the outcome of adding `spec`: an installed plugin, or one whose error only
/// says it is already there, joins `done` (which the caller then saves). Returns
/// whether `done` changed.
pub fn record_plugin_outcome(done: &mut Vec<String>, spec: &str, outcome: &PluginOutcome) -> (saved: bool)
    ensures
        saved == settles(*outcome),
        saved ==> crate::dsh::texts(final(done)@) == crate::dsh::texts(old(done)@).push(spec@),
        !saved ==> final(done)@ == old(done)@,
{
    let settled = match outcome {
        PluginOutcome::Installed => true,
        PluginOutcome::Failed(error) => crate::dsh::plugin_already_present(error.as_str()),
        PluginOutcome::TimedOut => false,
    };
    if settled {
        let ghost before = done@;
        done.push(String::from_str(spec));
        assert(crate::dsh::texts(done@) =~= crate::dsh::texts(before).push(spec@));
    }
    settled
}

/// An install that fails only because the plugin is there already counts as done:
/// an error whose text holds `already`, `exists` or `duplicate`, in any ASCII case,
/// settles the plugin, so `record_plugin_outcome` records its spec.
pub proof fn law_already_present_errors_settle(pre: Seq<char>, word: Seq<char>, post: Seq<char>, error: String)
    requires
        crate::text::lower(word) == "already"@ || crate::text::lower(word) == "exists"@
            || crate::text::lower(word) == "duplicate"@,
        error@ == pre + word + post,
    ensures
        settles(PluginOutcome::Failed(error)),
{
    let w = crate::text::lower(word);
    let l = crate::text::lower(error@);
    assert(l.subrange(pre.len() as int, (pre.len() + word.len()) as int) =~= w);
    assert(crate::text::occurs_at(l, w, pre.len() as int));
}

/// A successful install settles the plugin; a timed-out one does not.
pub proof fn law_installed_settles_timeout_does_not()
    ensures
        settles(PluginOutcome::Installed),
        !settles(PluginOutcome::TimedOut),
{
}

/// Once a plugin run settles, the plugin counts as done and is not installed again;
/// plugins recorded earlier stay recorded.
pub proof fn law_settled_plugin_stays_done(done: Seq<Seq<char>>, spec: Seq<char>, other: Seq<char>)
    requires
        done.contains(other),
    ensures
        done.push(spec).contains(spec),
        done.push(spec).contains(other),
{
    assert(done.push(spec)[done.len() as int] == spec);
    let j = choose|j: int| 0 <= j < done.len() && done[j] == other;
    assert(done.push(spec)[j] == other);
}

/// The spawn-log line for a plugin run that did not install, if any.
pub fn plugin_outcome_log(name: &str, outcome: &PluginOutcome) -> (r: Option<String>)
    ensures
        opt_view(r) == match *outcome {
            PluginOutcome::Installed => None,
            PluginOutcome::Failed(e) => Some("plugin "@ + name@ + ": "@ + e@),
            PluginOutcome::TimedOut => Some("plugin "@ + name@ + ": timed out"@),
        },
{
    match outcome {
        PluginOutcome::Installed => None,
        PluginOutcome::Failed(error) => {
            let mut out = chars_of("plugin ");
            push_str(&mut out, name);
            push_str(&mut out, ": ");
            push_str(&mut out, error.as_str());
            Some(string_of(&out))
        },
        PluginOutcome::TimedOut => {
            let mut out = chars_of("plugin ");
            push_str(&mut out, name);
            push_str(&mut out, ": timed out");
            Some(string_of(&out))
        },
    }
}

} // verus!

verus! {

/// Error text when a platform that cannot spawn dsh is asked to launch locally.
pub open spec fn cannot_spawn_error() -> Seq<char> {
    "this platform cannot spawn dsh web; switch to connect mode"@
}

/// How a start request for `config` on platform `os` proceeds: the mode to start
/// in, or why it cannot start.
pub fn start_mode(config: &DshConfig, os: &str) -> (r: Result<LaunchMode, String>)
    ensures
        match r {
            Ok(mode) => {
                &&& crate::config::config_error(*config) is None
                &&& mode == config.launch_mode
                &&& (mode == LaunchMode::Local ==> os@ != "android"@ && os@ != "ios"@)
            },
            Err(e) => match crate::config::config_error(*config) {
                Some(v) => e@ == v,
                None => config.launch_mode == LaunchMode::Local && !(os@ != "android"@ && os@ != "ios"@)
                    && e@ == cannot_spawn_error(),
            },
        },
{
    match config.validate() {
        Ok(()) => {},
        Err(e) => return Err(e),
    }
    if !can_launch_local(os) && config.launch_mode == LaunchMode::Local {
        return Err(String::from_str("this platform cannot spawn dsh web; switch to connect mode"));
    }
    Ok(config.launch_mode)
}

} // verus!

verus! {

// ---------------------------------------------------------------- waiting for dsh web

/// How long dsh web is given to get ready, in milliseconds.
pub const READY_DEADLINE_MS: u64 = 90000;

/// What the start loop does after one poll of the starting dsh web process.
#[derive(Debug, Clone)]
pub enum PollAction {
    /// The process exited before it was ready: fail with this message.
    Exited(String),
    /// The server at this URL serves its full boot graph: show it.
    Ready(String),
    /// Time is up: stop the process and fail with `message` (first logging that the
    /// boot graph is awaited, when `announce_waiting`).
    TimedOut { announce_waiting: bool, message: String },
    /// Poll again after a pause (first logging that the boot graph is awaited, when
    /// `announce_waiting`).
    Wait { announce_waiting: bool },
}

/// One poll of the start loop. `exit_status` is the process's exit status when it has
/// exited; `lines` the log so far; `found` the URL announced on a ready line, if any;
/// `page` the index page fetched from `ready_candidate(found, config)`, when there was
/// one to fetch and it answered; `waiting_announced` whether the wait for the boot
/// graph was already logged.
pub fn poll_step(
    elapsed_ms: u64,
    exit_status: Option<String>,
    lines: &Vec<String>,
    found: Option<String>,
    page: Option<String>,
    waiting_announced: bool,
    config: &DshConfig,
) -> (r: PollAction)
    ensures
        match exit_status {
            Some(status) => r matches PollAction::Exited(m)
                && m@ == "dsh web exited ("@ + status@ + ") before it was ready."@
                    + tail_text(crate::dsh::texts(lines@)),
            None => {
                let candidate = candidate_url(opt_view(found), *config);
                let served = candidate is Some && page is Some;
                let ready = served && boot_ready(page->Some_0@);
                let announce = served && !ready && !waiting_announced;
                if ready {
                    r matches PollAction::Ready(u) && candidate == Some(u@)
                } else if elapsed_ms >= READY_DEADLINE_MS {
                    r matches PollAction::TimedOut { announce_waiting, message }
                        && announce_waiting == announce
                        && message@ == "dsh web did not become ready within 90s."@
                            + tail_text(crate::dsh::texts(lines@))
                } else {
                    r matches PollAction::Wait { announce_waiting } && announce_waiting == announce
                }
            },
        },
{
    if let Some(status) = exit_status {
        return PollAction::Exited(exited_message(status.as_str(), lines));
    }
    let mut announce = false;
    if let Some(url) = ready_candidate(found, config) {
        if let Some(html) = page {
            if boot_manifest_ready(html.as_str()) {
                return PollAction::Ready(url);
            }
            announce = !waiting_announced;
        }
    }
    if elapsed_ms >= READY_DEADLINE_MS {
        PollAction::TimedOut { announce_waiting: announce, message: not_ready_message(lines) }
    } else {
        PollAction::Wait { announce_waiting: announce }
    }
}

} // verus!
