//! The speaker recognition sidecar: where it is, how it is started, and what it says of itself.

use crate::models;
use crate::paths;
use crate::prefixes::PathStyle;
use crate::text;
use vstd::prelude::*;
use vstd::string::*;

verus! {

/// How many seconds a health check may take.
pub const HEALTH_TIMEOUT_SECS: u64 = 2;

/// How many seconds the sidecar may take to start.
pub const STARTUP_TIMEOUT_SECS: u64 = 45;

/// How many milliseconds pass between two health checks while it starts.
pub const STARTUP_POLL_MS: u64 = 500;

/// What the user interface shows of the sidecar.
pub struct SpeakerSidecarStatus {
    pub running: bool,
    pub managed: bool,
    pub url: String,
    pub python_path: Option<String>,
    pub sidecar_root: Option<String>,
    pub hf_token_configured: bool,
    pub diarization_loaded: bool,
    pub embedding_loaded: bool,
    pub message: String,
}

/// How the sidecar is started.
pub struct LaunchConfig {
    pub python_path: String,
    pub sidecar_root: String,
}

/// What the sidecar says of its health.
pub struct HealthResponse {
    pub status: String,
    pub hf_token_configured: bool,
    pub diarization_loaded: bool,
    pub embedding_loaded: bool,
}

/// What a status shows.
pub struct Shown {
    pub running: bool,
    pub managed: bool,
    pub url: Seq<char>,
    pub python_path: Option<Seq<char>>,
    pub sidecar_root: Option<Seq<char>>,
    pub hf_token_configured: bool,
    pub diarization_loaded: bool,
    pub embedding_loaded: bool,
    pub message: Seq<char>,
}

impl View for SpeakerSidecarStatus {
    type V = Shown;

    open spec fn view(&self) -> Shown {
        Shown {
            running: self.running,
            managed: self.managed,
            url: self.url@,
            python_path: models::text_view(self.python_path),
            sidecar_root: models::text_view(self.sidecar_root),
            hf_token_configured: self.hf_token_configured,
            diarization_loaded: self.diarization_loaded,
            embedding_loaded: self.embedding_loaded,
            message: self.message@,
        }
    }
}

/// How the sidecar was started, as text.
pub struct Launch {
    pub python_path: Seq<char>,
    pub sidecar_root: Seq<char>,
}

impl View for LaunchConfig {
    type V = Launch;

    open spec fn view(&self) -> Launch {
        Launch { python_path: self.python_path@, sidecar_root: self.sidecar_root@ }
    }
}

/// How the sidecar was started, if it was.
pub open spec fn launch_of(config: Option<LaunchConfig>) -> Option<Launch> {
    match config {
        Some(c) => Some(c@),
        None => None,
    }
}

/// What the sidecar says of its health, as text.
pub struct Health {
    pub status: Seq<char>,
    pub hf_token_configured: bool,
    pub diarization_loaded: bool,
    pub embedding_loaded: bool,
}

impl View for HealthResponse {
    type V = Health;

    open spec fn view(&self) -> Health {
        Health {
            status: self.status@,
            hf_token_configured: self.hf_token_configured,
            diarization_loaded: self.diarization_loaded,
            embedding_loaded: self.embedding_loaded,
        }
    }
}

// Where the sidecar answers.

/// Where the sidecar answers: where the user says, or at the usual address.
pub fn sidecar_url(configured: Option<String>) -> (r: String)
    ensures
        match configured {
            Some(url) => r == url,
            None => r@ == "http://127.0.0.1:8179"@,
        },
{
    match configured {
        Some(url) => url,
        None => "http://127.0.0.1:8179".to_owned(),
    }
}

/// A path of a service, behind its address without trailing slashes.
pub fn endpoint(base_url: &str, path: &str) -> (r: String)
    ensures
        r@ == text::stripped_end(base_url@, '/') + path@,
{
    let mut url = text::trim_end_matches(base_url, '/').to_owned();
    url.append(path);
    url
}

// What the sidecar says of itself.

/// The status of a sidecar that is healthy, or why it is of no use.
pub open spec fn healthy_status(
    url: Seq<char>,
    health: Health,
    config: Option<Launch>,
    managed: bool,
) -> Result<Shown, Seq<char>> {
    if health.status != "ok"@ {
        Err("Speaker recognition sidecar returned status '"@ + health.status + "'"@)
    } else if !health.hf_token_configured {
        Err(
            "Speaker recognition sidecar is running, but HF_TOKEN or HUGGINGFACE_TOKEN is not configured. Set a Hugging Face token with access to the pyannote model, then restart Meetily or the sidecar."@,
        )
    } else {
        Ok(
            Shown {
                running: true,
                managed,
                url,
                python_path: match config {
                    Some(c) => Some(c.python_path),
                    None => None,
                },
                sidecar_root: match config {
                    Some(c) => Some(c.sidecar_root),
                    None => None,
                },
                hf_token_configured: health.hf_token_configured,
                diarization_loaded: health.diarization_loaded,
                embedding_loaded: health.embedding_loaded,
                message: "Speaker recognition sidecar is ready"@,
            },
        )
    }
}

/// What a status or an error shows.
pub open spec fn shown(r: Result<SpeakerSidecarStatus, String>) -> Result<Shown, Seq<char>> {
    match r {
        Ok(s) => Ok(s@),
        Err(e) => Err(e@),
    }
}

/// The status of the sidecar from what it says of its health, or why it is of no use.
pub fn status_from_health(
    url: String,
    health: HealthResponse,
    config: Option<LaunchConfig>,
    managed: bool,
) -> (r: Result<SpeakerSidecarStatus, String>)
    ensures
        shown(r) == healthy_status(url@, health@, launch_of(config), managed),
{
    if !text::same_text(health.status.as_str(), "ok") {
        let mut message = "Speaker recognition sidecar returned status '".to_owned();
        message.append(health.status.as_str());
        message.append("'");
        return Err(message);
    }
    if !health.hf_token_configured {
        return Err(
            "Speaker recognition sidecar is running, but HF_TOKEN or HUGGINGFACE_TOKEN is not configured. Set a Hugging Face token with access to the pyannote model, then restart Meetily or the sidecar.".to_owned(),
        );
    }
    let (python_path, sidecar_root) = match config {
        Some(c) => (Some(c.python_path), Some(c.sidecar_root)),
        None => (None, None),
    };
    Ok(
        SpeakerSidecarStatus {
            running: true,
            managed,
            url,
            python_path,
            sidecar_root,
            hf_token_configured: health.hf_token_configured,
            diarization_loaded: health.diarization_loaded,
            embedding_loaded: health.embedding_loaded,
            message: "Speaker recognition sidecar is ready".to_owned(),
        },
    )
}

/// A ready sidecar has a token: without one it is never said to be ready.
pub proof fn ready_sidecars_have_a_token(
    url: Seq<char>,
    health: Health,
    config: Option<Launch>,
    managed: bool,
)
    ensures
        healthy_status(url, health, config, managed) is Ok <==> health.status == "ok"@
            && health.hf_token_configured,
{
}

/// What is checked of the sidecar: its health, or why that is not known.
pub open spec fn checked(r: Result<HealthResponse, String>) -> Result<Health, Seq<char>> {
    match r {
        Ok(h) => Ok(h@),
        Err(e) => Err(e@),
    }
}

/// What is shown of a sidecar whose health was checked.
pub open spec fn current_status(
    url: Seq<char>,
    health: Result<Health, Seq<char>>,
    config: Option<Launch>,
    managed: bool,
) -> Shown {
    match health {
        Ok(h) => Shown {
            running: true,
            managed,
            url,
            python_path: match config {
                Some(c) => Some(c.python_path),
                None => None,
            },
            sidecar_root: match config {
                Some(c) => Some(c.sidecar_root),
                None => None,
            },
            hf_token_configured: h.hf_token_configured,
            diarization_loaded: h.diarization_loaded,
            embedding_loaded: h.embedding_loaded,
            message: "Speaker recognition sidecar is running"@,
        },
        Err(e) => Shown {
            running: false,
            managed,
            url,
            python_path: None,
            sidecar_root: None,
            hf_token_configured: false,
            diarization_loaded: false,
            embedding_loaded: false,
            message: e,
        },
    }
}

// The manager.

/// What is known of the sidecar's process.
pub struct SpeakerSidecarManager {
    /// Whether a process was started and not given up.
    pub has_child: bool,
    pub launch_config: Option<LaunchConfig>,
}

/// What becomes of the sidecar's process.
#[derive(Clone, Copy, PartialEq, Eq, Structural, Debug)]
pub enum ChildState {
    /// It ended.
    Exited,
    /// It runs.
    Running,
    /// Nothing can be said of it.
    Unknown,
}

/// What to do to have the sidecar running.
pub enum Start {
    /// Nothing: it answered, or nothing can be done.
    Done(Result<SpeakerSidecarStatus, String>),
    /// See what became of its process.
    Inspect,
    /// Wait until it answers.
    Wait,
    /// Start a process.
    Launch,
}

/// What to do to have the sidecar running, as text.
pub enum Plan {
    Done { status: Result<Shown, Seq<char>> },
    Inspect,
    Wait,
    Launch,
}

impl View for Start {
    type V = Plan;

    open spec fn view(&self) -> Plan {
        match self {
            Start::Done(r) => Plan::Done { status: shown(*r) },
            Start::Inspect => Plan::Inspect,
            Start::Wait => Plan::Wait,
            Start::Launch => Plan::Launch,
        }
    }
}

/// A copy of how the sidecar was started.
fn copy_launch(config: &Option<LaunchConfig>) -> (r: Option<LaunchConfig>)
    ensures
        r == *config,
{
    match config {
        Some(c) => Some(
            LaunchConfig {
                python_path: c.python_path.clone(),
                sidecar_root: c.sidecar_root.clone(),
            },
        ),
        None => None,
    }
}

/// What to do after the first health check: take a good answer, give up on a service that the
/// user runs, see what became of a process that was started, or start one.
pub open spec fn after_check(
    url: Seq<char>,
    url_configured: bool,
    has_child: bool,
    health: Result<Health, Seq<char>>,
) -> Plan {
    match health {
        Ok(h) => Plan::Done { status: healthy_status(url, h, None, has_child) },
        Err(_) => if url_configured {
            Plan::Done {
                status: Err(
                    "Speaker recognition service is not reachable at "@ + url
                        + ". Check MEETILY_DIARIZATION_URL or start the service manually."@,
                ),
            }
        } else if has_child {
            Plan::Inspect
        } else {
            Plan::Launch
        },
    }
}

impl SpeakerSidecarManager {
    /// No process was started.
    pub fn new() -> (r: SpeakerSidecarManager)
        ensures
            !r.has_child,
            r.launch_config is None,
    {
        SpeakerSidecarManager { has_child: false, launch_config: None }
    }

    /// What is shown of the sidecar after a health check.
    pub fn status(&self, url: String, health: Result<HealthResponse, String>) -> (r:
        SpeakerSidecarStatus)
        ensures
            r@ == current_status(
                url@,
                checked(health),
                launch_of(self.launch_config),
                self.has_child,
            ),
    {
        match health {
            Ok(h) => {
                let (python_path, sidecar_root) = match copy_launch(&self.launch_config) {
                    Some(c) => (Some(c.python_path), Some(c.sidecar_root)),
                    None => (None, None),
                };
                SpeakerSidecarStatus {
                    running: true,
                    managed: self.has_child,
                    url,
                    python_path,
                    sidecar_root,
                    hf_token_configured: h.hf_token_configured,
                    diarization_loaded: h.diarization_loaded,
                    embedding_loaded: h.embedding_loaded,
                    message: "Speaker recognition sidecar is running".to_owned(),
                }
            },
            Err(error) => SpeakerSidecarStatus {
                running: false,
                managed: self.has_child,
                url,
                python_path: None,
                sidecar_root: None,
                hf_token_configured: false,
                diarization_loaded: false,
                embedding_loaded: false,
                message: error,
            },
        }
    }

    /// What to do to have the sidecar running, after a health check.
    pub fn ensure_running(
        &self,
        url: String,
        url_configured: bool,
        health: Result<HealthResponse, String>,
    ) -> (r: Start)
        ensures
            r@ == after_check(url@, url_configured, self.has_child, checked(health)),
    {
        match health {
            Ok(h) => Start::Done(status_from_health(url, h, None, self.has_child)),
            Err(_) => if url_configured {
                let mut message = "Speaker recognition service is not reachable at ".to_owned();
                message.append(url.as_str());
                message.append(". Check MEETILY_DIARIZATION_URL or start the service manually.");
                Start::Done(Err(message))
            } else if self.has_child {
                Start::Inspect
            } else {
                Start::Launch
            },
        }
    }

    /// What to do after a look at the process: wait for one that runs, give up and replace one
    /// that does not.
    pub fn child_inspected(&mut self, state: ChildState) -> (r: Start)
        ensures
            r@ == if state is Running {
                Plan::Wait
            } else {
                Plan::Launch
            },
            final(self).has_child == (old(self).has_child && state is Running),
            final(self).launch_config == old(self).launch_config,
    {
        match state {
            ChildState::Running => Start::Wait,
            _ => {
                self.has_child = false;
                Start::Launch
            },
        }
    }

    /// Notes that a process was started.
    pub fn child_started(&mut self, config: LaunchConfig)
        ensures
            final(self).has_child,
            final(self).launch_config == Some(config),
    {
        self.has_child = true;
        self.launch_config = Some(config);
    }

    /// The status of the sidecar after it was waited for, or why it did not answer.
    pub fn health_waited(&self, url: String, health: Result<HealthResponse, String>) -> (r: Result<
        SpeakerSidecarStatus,
        String,
    >)
        ensures
            shown(r) == match health {
                Ok(h) => healthy_status(url@, h@, launch_of(self.launch_config), true),
                Err(e) => Err(e@),
            },
    {
        match health {
            Ok(h) => status_from_health(url, h, copy_launch(&self.launch_config), true),
            Err(e) => Err(e),
        }
    }

    /// Notes that the process was stopped, or that it could not be: then it is given up, and how
    /// it was started is still known.
    pub fn shutdown(&mut self, killed: Result<(), String>) -> (r: Result<(), String>)
        ensures
            !final(self).has_child,
            match killed {
                Ok(_) => r is Ok && final(self).launch_config is None,
                Err(e) => (r matches Err(message) && message@ == "Failed to stop speaker sidecar: "@
                    + e@) && final(self).launch_config == old(self).launch_config,
            },
    {
        self.has_child = false;
        match killed {
            Ok(_) => {
                self.launch_config = None;
                Ok(())
            },
            Err(e) => {
                let mut message = "Failed to stop speaker sidecar: ".to_owned();
                message.append(e.as_str());
                Err(message)
            },
        }
    }
}

/// A service that the user runs is never replaced by a process of ours, and a process that runs
/// is not started again.
pub proof fn only_what_is_missing_is_launched(
    url: Seq<char>,
    url_configured: bool,
    has_child: bool,
    health: Result<Health, Seq<char>>,
)
    ensures
        after_check(url, url_configured, has_child, health) is Launch <==> health is Err
            && !url_configured && !has_child,
{
}

// Waiting.

/// What a wait for the sidecar has seen so far.
pub struct HealthWait {
    pub last_error: String,
}

/// What to do while the sidecar may still answer.
pub enum WaitStep {
    /// It answered, or did not in time.
    Done(Result<HealthResponse, String>),
    /// Check its health.
    Check,
}

impl HealthWait {
    /// The sidecar was not asked yet.
    pub fn new() -> (r: HealthWait)
        ensures
            r.last_error@ == "sidecar did not respond yet"@,
    {
        HealthWait { last_error: "sidecar did not respond yet".to_owned() }
    }

    /// Whether to check once more, after some time.
    pub fn next(&self, waited_ms: u64) -> (r: WaitStep)
        ensures
            if waited_ms < 1000 * STARTUP_TIMEOUT_SECS {
                r is Check
            } else {
                r matches WaitStep::Done(Err(message)) && message@
                    == "Speaker recognition sidecar did not become healthy within "@
                    + text::numeral(STARTUP_TIMEOUT_SECS as nat) + "s: "@ + self.last_error@
            },
    {
        if waited_ms < 1000 * STARTUP_TIMEOUT_SECS {
            return WaitStep::Check;
        }
        let mut message = "Speaker recognition sidecar did not become healthy within ".to_owned();
        text::push_number(&mut message, STARTUP_TIMEOUT_SECS);
        message.append("s: ");
        message.append(self.last_error.as_str());
        WaitStep::Done(Err(message))
    }

    /// Takes the result of a check: a good one ends the wait, another is remembered.
    pub fn checked(&mut self, health: Result<HealthResponse, String>) -> (r: Option<HealthResponse>)
        ensures
            match health {
                Ok(h) => r == Some(h) && *final(self) == *old(self),
                Err(e) => r is None && final(self).last_error == e,
            },
    {
        match health {
            Ok(h) => Some(h),
            Err(e) => {
                self.last_error = e;
                None
            },
        }
    }
}

// Starting.

/// The words after the Python program that start the sidecar.
pub open spec fn launch_words() -> Seq<Seq<char>> {
    seq![
        "-m"@,
        "uvicorn"@,
        "backend.diarization_service.main:app"@,
        "--host"@,
        "127.0.0.1"@,
        "--port"@,
        "8179"@,
    ]
}

/// The words after the Python program that start the sidecar.
pub fn launch_arguments() -> (r: Vec<String>)
    ensures
        models::texts_of(r@) == launch_words(),
{
    let mut r: Vec<String> = Vec::new();
    r.push("-m".to_owned());
    r.push("uvicorn".to_owned());
    r.push("backend.diarization_service.main:app".to_owned());
    r.push("--host".to_owned());
    r.push("127.0.0.1".to_owned());
    r.push("--port".to_owned());
    r.push("8179".to_owned());
    assert(models::texts_of(r@) =~= launch_words());
    r
}

/// A variable of the sidecar's environment.
pub struct Variable {
    pub name: String,
    pub value: String,
}

/// The variables that the sidecar gets.
pub fn launch_environment(config: &LaunchConfig) -> (r: Vec<Variable>)
    ensures
        r@.len() == 3,
        r@[0].name@ == "PYTHONPATH"@ && r@[0].value == config.sidecar_root,
        r@[1].name@ == "MEETILY_DIARIZATION_HOST"@ && r@[1].value@ == "127.0.0.1"@,
        r@[2].name@ == "MEETILY_DIARIZATION_PORT"@ && r@[2].value@ == "8179"@,
{
    let mut r: Vec<Variable> = Vec::new();
    r.push(Variable { name: "PYTHONPATH".to_owned(), value: config.sidecar_root.clone() });
    r.push(
        Variable {
            name: "MEETILY_DIARIZATION_HOST".to_owned(),
            value: "127.0.0.1".to_owned(),
        },
    );
    r.push(
        Variable { name: "MEETILY_DIARIZATION_PORT".to_owned(), value: "8179".to_owned() },
    );
    r
}

/// The program of the sidecar in a directory.
pub fn sidecar_program(style: PathStyle, root: &str) -> (r: String)
    ensures
        r@ == paths::joined(style, root@, "backend/diarization_service/main.py"@),
{
    paths::join(style, root, "backend/diarization_service/main.py")
}

/// The directory and those that hold it.
pub fn ancestor_candidates(style: PathStyle, path: &str) -> (r: Vec<String>)
    ensures
        models::texts_of(r@) == paths::ancestors_of(style, path@),
{
    let r = paths::ancestors(style, path);
    assert(models::texts_of(r@) =~= paths::ancestors_of(style, path@));
    r
}

/// The directory two levels above another.
pub open spec fn grandparent(style: PathStyle, path: Seq<char>) -> Option<Seq<char>> {
    match paths::parent_of(style, path) {
        Some(p) => paths::parent_of(style, p),
        None => None,
    }
}

/// The root of the repository, two levels above that of the manifest.
pub fn repo_root_from_manifest_dir(style: PathStyle, manifest_dir: &str) -> (r: Option<String>)
    ensures
        models::text_view(r) == grandparent(style, manifest_dir@),
{
    match paths::parent(style, manifest_dir) {
        Some(frontend) => match paths::parent(style, frontend) {
            Some(root) => Some(root.to_owned()),
            None => None,
        },
        None => None,
    }
}

/// Where the sidecar may lie, in the order in which to look, behind the directory that the user
/// names: the working directory and those that hold it, the program's directory and those that
/// hold it, and the repository.
pub open spec fn root_places(
    style: PathStyle,
    current_dir: Option<Seq<char>>,
    exe: Option<Seq<char>>,
    manifest_dir: Seq<char>,
) -> Seq<Seq<char>> {
    let here = match current_dir {
        Some(dir) => paths::ancestors_of(style, dir),
        None => Seq::empty(),
    };
    let there = match exe {
        Some(path) => match paths::parent_of(style, path) {
            Some(dir) => paths::ancestors_of(style, dir),
            None => Seq::empty(),
        },
        None => Seq::empty(),
    };
    let repository = match grandparent(style, manifest_dir) {
        Some(root) => seq![root],
        None => Seq::empty(),
    };
    here + there + repository
}

/// Where the sidecar may lie, in the order in which to look.
pub fn sidecar_root_candidates(
    style: PathStyle,
    current_dir: Option<&str>,
    exe: Option<&str>,
    manifest_dir: &str,
) -> (r: Vec<String>)
    ensures
        models::texts_of(r@) == root_places(
            style,
            models::str_view(current_dir),
            models::str_view(exe),
            manifest_dir@,
        ),
{
    let mut r: Vec<String> = match current_dir {
        Some(dir) => ancestor_candidates(style, dir),
        None => Vec::new(),
    };
    let ghost here = models::texts_of(r@);
    assert(current_dir is None ==> here =~= Seq::empty());
    let mut there: Vec<String> = match exe {
        Some(path) => match paths::parent(style, path) {
            Some(dir) => ancestor_candidates(style, dir),
            None => Vec::new(),
        },
        None => Vec::new(),
    };
    let ghost next = models::texts_of(there@);
    assert(there@.len() == 0 ==> next =~= Seq::empty());
    r.append(&mut there);
    assert(models::texts_of(r@) =~= here + next);
    if let Some(root) = repo_root_from_manifest_dir(style, manifest_dir) {
        r.push(root);
    }
    assert(models::texts_of(r@) =~= root_places(
            style,
            models::str_view(current_dir),
            models::str_view(exe),
            manifest_dir@,
        ));
    r
}

/// The directory of the sidecar: the one that the user names, where it holds the sidecar, and else
/// the first of the candidates that does.
pub fn resolve_sidecar_root(
    configured: Option<String>,
    configured_is_valid: bool,
    candidates: &[String],
    valid: &[bool],
) -> (r: Option<String>)
    requires
        valid@.len() == candidates@.len(),
    ensures
        if configured is Some && configured_is_valid {
            r == configured
        } else {
            paths::is_first_present(r, candidates@, valid@)
        },
{
    if configured_is_valid {
        if let Some(root) = configured {
            return Some(root);
        }
    }
    paths::first_present(candidates, valid)
}

/// Whether the user names a Python program.
pub open spec fn names_python(env_python: Option<Seq<char>>) -> bool {
    env_python matches Some(path) && !text::is_blank(path)
}

/// Where Python may lie, in the order in which to look: where the user says, in the environment of
/// the sidecar, and in that of the repository.
pub open spec fn python_places(style: PathStyle, root: Seq<char>, env_python: Option<Seq<char>>) -> Seq<
    Seq<char>,
> {
    let usual = seq![
        paths::joined(style, root, "backend/diarization_service/.venv/bin/python"@),
        paths::joined(style, root, ".venv/bin/python"@),
    ];
    if names_python(env_python) {
        seq![env_python->0] + usual
    } else {
        usual
    }
}

/// Where Python may lie, in the order in which to look.
pub fn python_candidates(style: PathStyle, sidecar_root: &str, env_python: Option<&str>) -> (r: Vec<String>)
    ensures
        models::texts_of(r@) == python_places(style, sidecar_root@, models::str_view(env_python)),
{
    let mut r: Vec<String> = Vec::new();
    if let Some(path) = env_python {
        if !text::is_blank_text(path) {
            r.push(path.to_owned());
        }
    }
    r.push(paths::join(style, sidecar_root, "backend/diarization_service/.venv/bin/python"));
    r.push(paths::join(style, sidecar_root, ".venv/bin/python"));
    assert(models::texts_of(r@) =~= python_places(style, sidecar_root@, models::str_view(env_python)));
    r
}

/// The Python program: the one that the user names, else the first of the candidates that exists,
/// else the one that the system finds.
pub fn resolve_python_path(env_python: Option<String>, candidates: &[String], present: &[bool]) -> (r:
    Option<String>)
    requires
        present@.len() == candidates@.len(),
    ensures
        if names_python(models::text_view(env_python)) {
            r == env_python
        } else if paths::is_first_present(None, candidates@, present@) {
            models::text_view(r) == Some("python3"@)
        } else {
            paths::is_first_present(r, candidates@, present@)
        },
        r is Some,
{
    if let Some(path) = env_python {
        if !text::is_blank_text(path.as_str()) {
            return Some(path);
        }
    }
    match paths::first_present(candidates, present) {
        Some(path) => Some(path),
        None => Some("python3".to_owned()),
    }
}

/// How to start the sidecar from its directory and Python, or what is missing.
pub fn resolve_launch_config(
    style: PathStyle,
    sidecar_root: Option<String>,
    python_path: Option<String>,
) -> (r: Result<LaunchConfig, String>)
    ensures
        match (sidecar_root, python_path) {
            (Some(root), Some(python)) => r matches Ok(config) && config.sidecar_root == root
                && config.python_path == python,
            (Some(root), None) => r matches Err(e) && e@
                == "Could not find a Python runtime for speaker recognition. Create the venv at "@
                + paths::joined(style, root@, "backend/diarization_service/.venv/bin/python"@)
                + " or set MEETILY_DIARIZATION_PYTHON."@,
            (None, _) => r matches Err(e) && e@
                == "Could not find backend/diarization_service. Set MEETILY_DIARIZATION_ROOT to the Meetily repository root or start the sidecar manually."@,
        },
{
    match sidecar_root {
        Some(root) => match python_path {
            Some(python) => Ok(LaunchConfig { python_path: python, sidecar_root: root }),
            None => {
                let mut message =
                    "Could not find a Python runtime for speaker recognition. Create the venv at ".to_owned();
                message.append(
                    paths::join(
                        style,
                        root.as_str(),
                        "backend/diarization_service/.venv/bin/python",
                    ).as_str(),
                );
                message.append(" or set MEETILY_DIARIZATION_PYTHON.");
                Err(message)
            },
        },
        None => Err(
            "Could not find backend/diarization_service. Set MEETILY_DIARIZATION_ROOT to the Meetily repository root or start the sidecar manually.".to_owned(),
        ),
    }
}

/// Whether the sidecar is ready depends on its status first and on its token then; a ready one is
/// shown with its address, where it was launched from, and what it has loaded.
pub proof fn ready_sidecars_show_what_they_have(
    url: Seq<char>,
    health: Health,
    config: Option<Launch>,
    managed: bool,
)
    ensures
        health.status != "ok"@ ==> healthy_status(url, health, config, managed) == Err::<Shown, _>(
            "Speaker recognition sidecar returned status '"@ + health.status + "'"@,
        ),
        health.status == "ok"@ && !health.hf_token_configured ==> healthy_status(
            url,
            health,
            config,
            managed,
        ) == Err::<Shown, _>(
            "Speaker recognition sidecar is running, but HF_TOKEN or HUGGINGFACE_TOKEN is not configured. Set a Hugging Face token with access to the pyannote model, then restart Meetily or the sidecar."@,
        ),
        healthy_status(url, health, config, managed) matches Ok(s) ==> {
            &&& s.running && s.managed == managed && s.url == url
            &&& s.hf_token_configured
            &&& s.diarization_loaded == health.diarization_loaded
            &&& s.embedding_loaded == health.embedding_loaded
            &&& s.message == "Speaker recognition sidecar is ready"@
            &&& shows_launch(s, config)
        },
{
}

/// Whether the launch that is shown is this one.
pub open spec fn shows_launch(s: Shown, config: Option<Launch>) -> bool {
    &&& s.python_path is Some <==> config is Some
    &&& s.sidecar_root is Some <==> config is Some
    &&& config matches Some(c) ==> s.python_path == Some(c.python_path) && s.sidecar_root == Some(
        c.sidecar_root,
    )
}

/// A sidecar that answers is shown as running, with its address, where it was launched from, and
/// what it has; one that does not is shown as not running, with the reason and nothing else.
pub proof fn sidecars_are_shown_as_they_are(
    url: Seq<char>,
    health: Result<Health, Seq<char>>,
    config: Option<Launch>,
    managed: bool,
)
    ensures
        ({
            let s = current_status(url, health, config, managed);
            &&& s.running <==> health is Ok
            &&& s.managed == managed && s.url == url
            &&& health matches Ok(h) ==> {
                &&& s.hf_token_configured == h.hf_token_configured
                &&& s.diarization_loaded == h.diarization_loaded
                &&& s.embedding_loaded == h.embedding_loaded
                &&& s.message == "Speaker recognition sidecar is running"@
                &&& shows_launch(s, config)
            }
            &&& health matches Err(e) ==> {
                &&& !s.hf_token_configured && !s.diarization_loaded && !s.embedding_loaded
                &&& s.message == e
                &&& shows_launch(s, None)
            }
        }),
{
}

/// A sidecar that answers is done with, ready or not. One that does not is left to the user where
/// the user named it, is looked at where it was launched, and is launched where it was not.
pub proof fn silent_sidecars_are_looked_at_or_launched(
    url: Seq<char>,
    url_configured: bool,
    has_child: bool,
    health: Result<Health, Seq<char>>,
)
    ensures
        health matches Ok(h) ==> after_check(url, url_configured, has_child, health) == (Plan::Done {
            status: healthy_status(url, h, None, has_child),
        }),
        health is Err && url_configured ==> after_check(url, url_configured, has_child, health) == (
        Plan::Done {
            status: Err(
                "Speaker recognition service is not reachable at "@ + url
                    + ". Check MEETILY_DIARIZATION_URL or start the service manually."@,
            ),
        }),
        health is Err && !url_configured && has_child ==> after_check(
            url,
            url_configured,
            has_child,
            health,
        ) is Inspect,
        health is Err && !url_configured && !has_child ==> after_check(
            url,
            url_configured,
            has_child,
            health,
        ) is Launch,
{
}

/// What the sidecar says of itself, how it is launched and what is shown of it are seen field by
/// field.
pub proof fn the_sidecar_shows_its_fields(
    status: SpeakerSidecarStatus,
    config: LaunchConfig,
    health: HealthResponse,
    error: String,
)
    ensures
        status@.running == status.running && status@.managed == status.managed,
        status@.url == status.url@ && status@.message == status.message@,
        status@.python_path is Some <==> status.python_path is Some,
        status.python_path matches Some(p) ==> status@.python_path == Some(p@),
        status@.sidecar_root is Some <==> status.sidecar_root is Some,
        status.sidecar_root matches Some(p) ==> status@.sidecar_root == Some(p@),
        status@.hf_token_configured == status.hf_token_configured,
        status@.diarization_loaded == status.diarization_loaded,
        status@.embedding_loaded == status.embedding_loaded,
        config@.python_path == config.python_path@,
        config@.sidecar_root == config.sidecar_root@,
        launch_of(Some(config)) == Some(config@),
        launch_of(None) is None,
        health@.status == health.status@,
        health@.hf_token_configured == health.hf_token_configured,
        health@.diarization_loaded == health.diarization_loaded,
        health@.embedding_loaded == health.embedding_loaded,
        checked(Ok(health)) == Ok::<Health, Seq<char>>(health@),
        checked(Err(error)) == Err::<Health, Seq<char>>(error@),
        shown(Ok(status)) == Ok::<Shown, Seq<char>>(status@),
        shown(Err(error)) == Err::<Shown, Seq<char>>(error@),
        Start::Done(Ok(status))@ == (Plan::Done { status: Ok(status@) }),
        Start::Done(Err(error))@ == (Plan::Done { status: Err(error@) }),
        Start::Inspect@ is Inspect && Start::Wait@ is Wait && Start::Launch@ is Launch,
{
}

/// The sidecar is launched as a web server on the port of the local machine at which it is asked.
pub proof fn the_sidecar_is_launched_as_a_server()
    ensures
        launch_words().len() == 7,
        launch_words()[0] == "-m"@ && launch_words()[1] == "uvicorn"@,
        launch_words()[2] == "backend.diarization_service.main:app"@,
        launch_words()[3] == "--host"@ && launch_words()[4] == "127.0.0.1"@,
        launch_words()[5] == "--port"@ && launch_words()[6] == "8179"@,
        STARTUP_TIMEOUT_SECS == 45,
        2 * STARTUP_POLL_MS == 1_000,
        HEALTH_TIMEOUT_SECS == 2,
{
}

/// The sidecar is looked for in the current directory and those above it, then in the program's
/// directory and those above it, then in the directory two above that of the manifest.
#[verifier::spinoff_prover]
pub proof fn the_sidecar_is_looked_for_upwards(
    style: PathStyle,
    current_dir: Option<Seq<char>>,
    exe: Option<Seq<char>>,
    manifest_dir: Seq<char>,
)
    ensures
        root_places(style, current_dir, exe, manifest_dir) == root_places(
            style,
            current_dir,
            None,
            seq!['/'],
        ) + root_places(style, None, exe, seq!['/']) + root_places(style, None, None, manifest_dir),
        current_dir matches Some(dir) ==> root_places(style, current_dir, None, seq!['/'])
            == paths::ancestors_of(style, dir),
        root_places(style, None, None, seq!['/']).len() == 0,
        exe matches Some(path) ==> (paths::parent_of(style, path) matches Some(dir) ==> root_places(
            style,
            None,
            exe,
            seq!['/'],
        ) == paths::ancestors_of(style, dir)),
        exe matches Some(path) ==> (paths::parent_of(style, path) is None ==> root_places(
            style,
            None,
            exe,
            seq!['/'],
        ).len() == 0),
        paths::parent_of(style, manifest_dir) matches Some(p) ==> (
        paths::parent_of(style, p) matches Some(root) ==> root_places(
            style,
            None,
            None,
            manifest_dir,
        ) == seq![root]),
        paths::parent_of(style, manifest_dir) is None ==> root_places(
            style,
            None,
            None,
            manifest_dir,
        ).len() == 0,
{
    paths::roots_have_no_parent(style);
    assert(root_places(style, current_dir, exe, manifest_dir) =~= root_places(
        style,
        current_dir,
        None,
        seq!['/'],
    ) + root_places(style, None, exe, seq!['/']) + root_places(style, None, None, manifest_dir));
    if let Some(dir) = current_dir {
        assert(root_places(style, current_dir, None, seq!['/']) =~= paths::ancestors_of(style, dir));
    }
    if let Some(path) = exe {
        if let Some(dir) = paths::parent_of(style, path) {
            assert(root_places(style, None, exe, seq!['/']) =~= paths::ancestors_of(style, dir));
        }
    }
    if let Some(p) = paths::parent_of(style, manifest_dir) {
        if let Some(root) = paths::parent_of(style, p) {
            assert(root_places(style, None, None, manifest_dir) =~= seq![root]);
        }
    }
}

/// The interpreter that the user named comes first, unless the name is blank, then those of the
/// service's own environment and of the repository's.
pub proof fn interpreters_are_looked_for_in_order(
    style: PathStyle,
    root: Seq<char>,
    env_python: Option<Seq<char>>,
)
    ensures
        names_python(env_python) <==> env_python is Some && !text::is_blank(env_python->0),
        !names_python(env_python) ==> python_places(style, root, env_python) == seq![
            paths::joined(style, root, "backend/diarization_service/.venv/bin/python"@),
            paths::joined(style, root, ".venv/bin/python"@),
        ],
        names_python(env_python) ==> python_places(style, root, env_python) == seq![
            env_python->0,
            paths::joined(style, root, "backend/diarization_service/.venv/bin/python"@),
            paths::joined(style, root, ".venv/bin/python"@),
        ],
{
    if names_python(env_python) {
        assert(python_places(style, root, env_python) =~= seq![
            env_python->0,
            paths::joined(style, root, "backend/diarization_service/.venv/bin/python"@),
            paths::joined(style, root, ".venv/bin/python"@),
        ]);
    }
}

/// The sidecar is asked at the configured address, else at its own port of this machine, with the
/// path behind the address and one slash between them.
pub proof fn the_sidecar_is_asked_at_its_address(
    configured: Option<String>,
    url: String,
    base: &str,
    path: &str,
    r: String,
)
    requires
        call_ensures(sidecar_url, (configured,), url),
        call_ensures(endpoint, (base, path), r),
    ensures
        configured matches Some(c) ==> url@ == c@,
        configured is None ==> url@ == "http://127.0.0.1:8179"@,
        r@ == text::stripped_end(base@, '/') + path@,
{
}

/// What the manager makes of the sidecar's health is what its status and its checks say.
pub proof fn the_manager_follows_the_health(
    manager: &SpeakerSidecarManager,
    url: String,
    health: Result<HealthResponse, String>,
    configured: bool,
    status: SpeakerSidecarStatus,
    start: Start,
    waited: Result<SpeakerSidecarStatus, String>,
    fresh: SpeakerSidecarManager,
)
    requires
        call_ensures(SpeakerSidecarManager::new, (), fresh),
        call_ensures(SpeakerSidecarManager::status, (manager, url, health), status),
        call_ensures(SpeakerSidecarManager::ensure_running, (manager, url, configured, health), start),
        call_ensures(SpeakerSidecarManager::health_waited, (manager, url, health), waited),
    ensures
        !fresh.has_child && fresh.launch_config is None,
        status@ == current_status(
            url@,
            checked(health),
            launch_of(manager.launch_config),
            manager.has_child,
        ),
        start@ == after_check(url@, configured, manager.has_child, checked(health)),
        health matches Ok(h) ==> shown(waited) == healthy_status(
            url@,
            h@,
            launch_of(manager.launch_config),
            true,
        ),
        health matches Err(e) ==> (waited matches Err(message) && message@ == e@),
{
}

/// The sidecar is waited for forty-five seconds, and then given up with the last reason.
pub proof fn the_sidecar_is_given_up_in_time(wait: &HealthWait, waited_ms: u64, r: WaitStep)
    requires
        call_ensures(HealthWait::next, (wait, waited_ms), r),
    ensures
        waited_ms < 45_000 <==> r is Check,
        waited_ms >= 45_000 ==> (r matches WaitStep::Done(Err(message)) && message@
            == "Speaker recognition sidecar did not become healthy within "@ + text::numeral(45)
            + "s: "@ + wait.last_error@),
{
}

/// The sidecar is launched with its words and its three variables, from the program in its root.
pub proof fn the_sidecar_is_launched_from_its_root(
    words: Vec<String>,
    config: &LaunchConfig,
    variables: Vec<Variable>,
    style: PathStyle,
    root: &str,
    program: String,
)
    requires
        call_ensures(launch_arguments, (), words),
        call_ensures(launch_environment, (config,), variables),
        call_ensures(sidecar_program, (style, root), program),
    ensures
        models::texts_of(words@) == launch_words(),
        variables@.len() == 3,
        variables@[0].name@ == "PYTHONPATH"@ && variables@[0].value@ == config.sidecar_root@,
        variables@[1].name@ == "MEETILY_DIARIZATION_HOST"@ && variables@[1].value@ == "127.0.0.1"@,
        variables@[2].name@ == "MEETILY_DIARIZATION_PORT"@ && variables@[2].value@ == "8179"@,
        program@ == paths::joined(style, root@, "backend/diarization_service/main.py"@),
{
}

/// The root that the user named is taken where it is one, else the first place that is one; the
/// interpreter that the user named is taken as it is, else the first that is there, else the one
/// that the system finds. A launch needs both.
#[verifier::spinoff_prover]
pub proof fn launches_need_a_root_and_an_interpreter(
    configured: Option<String>,
    valid: bool,
    places: &[String],
    present: &[bool],
    root: Option<String>,
    env_python: Option<String>,
    python: Option<String>,
    style: PathStyle,
    found_root: Option<String>,
    found_python: Option<String>,
    r: Result<LaunchConfig, String>,
)
    requires
        call_ensures(resolve_sidecar_root, (configured, valid, places, present), root),
        call_ensures(resolve_python_path, (env_python, places, present), python),
        call_ensures(resolve_launch_config, (style, found_root, found_python), r),
    ensures
        configured is Some && valid ==> root == configured,
        configured is None || !valid ==> paths::is_first_present(root, places@, present@),
        env_python is Some && !text::is_blank(env_python->0@) ==> python == env_python,
        (env_python is None || text::is_blank(env_python->0@)) && paths::is_first_present(
            None,
            places@,
            present@,
        ) ==> python is Some && python->0@ == "python3"@,
        (env_python is None || text::is_blank(env_python->0@)) && !paths::is_first_present(
            None,
            places@,
            present@,
        ) ==> paths::is_first_present(python, places@, present@),
        r is Ok <==> found_root is Some && found_python is Some,
        r matches Ok(config) ==> config.sidecar_root == found_root->0 && config.python_path
            == found_python->0,
        found_root is None ==> (r matches Err(e) && e@
            == "Could not find backend/diarization_service. Set MEETILY_DIARIZATION_ROOT to the Meetily repository root or start the sidecar manually."@),
        found_root matches Some(place) ==> (found_python is None ==> (r matches Err(e) && e@
            == "Could not find a Python runtime for speaker recognition. Create the venv at "@
            + paths::joined(style, place@, "backend/diarization_service/.venv/bin/python"@)
            + " or set MEETILY_DIARIZATION_PYTHON."@)),
{
}

/// Roots and interpreters are looked for at their places, in order.
pub proof fn places_are_looked_at_in_order(
    style: PathStyle,
    current_dir: Option<&str>,
    exe: Option<&str>,
    manifest_dir: &str,
    roots: Vec<String>,
    repository: Option<String>,
    root: &str,
    env_python: Option<&str>,
    interpreters: Vec<String>,
    path: &str,
    above: Vec<String>,
)
    requires
        call_ensures(sidecar_root_candidates, (style, current_dir, exe, manifest_dir), roots),
        call_ensures(repo_root_from_manifest_dir, (style, manifest_dir), repository),
        call_ensures(python_candidates, (style, root, env_python), interpreters),
        call_ensures(ancestor_candidates, (style, path), above),
    ensures
        models::texts_of(roots@) == root_places(
            style,
            models::str_view(current_dir),
            models::str_view(exe),
            manifest_dir@,
        ),
        paths::parent_of(style, manifest_dir@) matches Some(p) ==> models::text_view(repository)
            == paths::parent_of(style, p),
        paths::parent_of(style, manifest_dir@) is None ==> repository is None,
        models::texts_of(interpreters@) == python_places(
            style,
            root@,
            models::str_view(env_python),
        ),
        models::texts_of(above@) == paths::ancestors_of(style, path@),
{
}

} // verus!
