//! How a shell is started so that it reports to the terminal.

use crate::json::strings_view;
use crate::paths::{join_path, joined_path};
use crate::text::{chars_of, decimal, decimal_text, same_chars, string_between};
use vstd::prelude::*;
use vstd::string::*;

verus! {

/// The version of the protocol that the shells speak.
pub const INTEGRATION_VERSION: u32 = 1;

/// A shell that can be started.
#[derive(Debug, Clone, Copy, PartialEq, Eq, Structural)]
pub enum ShellSpec {
    Zsh,
    Bash,
    Fish,
}

// ---- the shell ---------------------------------------------------------

/// Where the last part of a path starts: behind its last slash.
pub open spec fn last_part_start(path: Seq<char>) -> int
    decreases path.len(),
{
    if path.len() == 0 || path.last() == '/' {
        path.len() as int
    } else {
        last_part_start(path.drop_last())
    }
}

/// The start of the last part lies within the path, behind a slash where it
/// is not the start of the path.
pub proof fn lemma_last_part_start(path: Seq<char>)
    ensures
        0 <= last_part_start(path) <= path.len(),
        last_part_start(path) > 0 ==> path[last_part_start(path) - 1] == '/',
    decreases path.len(),
{
    if path.len() > 0 && path.last() != '/' {
        lemma_last_part_start(path.drop_last());
    }
}

/// The name of the file at a path: its last part, with empty parts and parts
/// `.` passed over; none where there is no part left, or it is `..`.
pub open spec fn file_name(path: Seq<char>) -> Option<Seq<char>>
    decreases path.len(),
{
    let at = last_part_start(path);
    let part = path.skip(at);
    if part.len() == 0 || part == seq!['.'] {
        if at <= 0 || at > path.len() {
            None
        } else {
            file_name(path.take(at - 1))
        }
    } else if part == seq!['.', '.'] {
        None
    } else {
        Some(part)
    }
}

/// The name of the file at a path, where separators are slashes.
pub fn base_name(path: &str) -> (r: Option<String>)
    ensures
        match r {
            Some(name) => file_name(path@) == Some(name@),
            None => file_name(path@) is None,
        },
{
    let chars = chars_of(path);
    let mut stop: usize = chars.len();
    assert(chars@.take(stop as int) =~= path@);
    loop
        invariant
            stop <= chars@.len(),
            file_name(path@) == file_name(chars@.take(stop as int)),
        decreases stop,
    {
        let ghost rest = chars@.take(stop as int);
        let mut at: usize = stop;
        assert(chars@.take(at as int) =~= rest);
        while at > 0 && chars[at - 1] != '/'
            invariant
                at <= stop <= chars@.len(),
                last_part_start(rest) == last_part_start(chars@.take(at as int)),
            decreases at,
        {
            assert(chars@.take(at as int).drop_last() =~= chars@.take(at - 1));
            at -= 1;
        }
        assert(last_part_start(rest) == at);
        let ghost part = rest.skip(at as int);
        assert(part =~= chars@.subrange(at as int, stop as int));
        let dot = stop - at == 1 && chars[at] == '.';
        let dots = stop - at == 2 && chars[at] == '.' && chars[at + 1] == '.';
        assert(dot == (part == seq!['.'])) by {
            let one = seq!['.'];
            assert(one.len() == 1 && one[0] == '.');
            if dot {
                assert(part =~= one);
            }
        }
        assert(dots == (part == seq!['.', '.'])) by {
            let two = seq!['.', '.'];
            assert(two.len() == 2 && two[0] == '.' && two[1] == '.');
            if dots {
                assert(part =~= two);
            }
        }
        if at == stop || dot {
            if at == 0 {
                return None;
            }
            assert(rest.take(at - 1) =~= chars@.take(at - 1));
            stop = at - 1;
        } else if dots {
            return None;
        } else {
            return Some(string_between(chars.as_slice(), at, stop));
        }
    }
}

/// The shell of a file name: `bash` and `fish` by name, else zsh.
pub open spec fn shell_of(name: Option<Seq<char>>) -> ShellSpec {
    if name == Some("bash"@) {
        ShellSpec::Bash
    } else if name == Some("fish"@) {
        ShellSpec::Fish
    } else {
        ShellSpec::Zsh
    }
}

/// The name of a shell.
pub open spec fn shell_name(shell: ShellSpec) -> Seq<char> {
    match shell {
        ShellSpec::Zsh => "zsh"@,
        ShellSpec::Bash => "bash"@,
        ShellSpec::Fish => "fish"@,
    }
}

impl ShellSpec {
    /// The shell at a path, as `$SHELL` gives it; zsh for one unknown.
    pub fn from_shell_path(path: &str) -> (r: ShellSpec)
        ensures
            r == shell_of(file_name(path@)),
    {
        let name = match base_name(path) {
            Some(name) => name,
            None => return ShellSpec::Zsh,
        };
        let chars = chars_of(name.as_str());
        let bash = chars_of("bash");
        let fish = chars_of("fish");
        if same_chars(chars.as_slice(), bash.as_slice()) {
            ShellSpec::Bash
        } else if same_chars(chars.as_slice(), fish.as_slice()) {
            ShellSpec::Fish
        } else {
            ShellSpec::Zsh
        }
    }

    /// The name of the shell.
    pub fn name(&self) -> (r: &'static str)
        ensures
            r@ == shell_name(*self),
    {
        match self {
            ShellSpec::Zsh => "zsh",
            ShellSpec::Bash => "bash",
            ShellSpec::Fish => "fish",
        }
    }
}

// ---- the plan ----------------------------------------------------------

/// The scripts that the shells run at their start.
#[derive(Debug, Clone)]
pub struct Bootstraps {
    /// The `.zshrc` for zsh.
    pub zsh: String,
    /// The rc file for bash.
    pub bash: String,
    /// The hooks that bash's rc file sources.
    pub bash_preexec: String,
    /// The commands for fish.
    pub fish: String,
}

/// How a shell is started.
#[derive(Debug, Clone)]
pub struct ManagedSpawn {
    /// The program and its arguments.
    pub argv: Vec<String>,
    /// What to type into the shell first; none of the shells needs it.
    pub pty_bootstrap: Option<String>,
    /// Variables to add to the environment.
    pub env: Vec<(String, String)>,
}

/// How a shell is started, as mathematics.
#[verifier::ext_equal]
pub struct SpawnView {
    pub argv: Seq<Seq<char>>,
    pub env: Seq<(Seq<char>, Seq<char>)>,
}

/// A file that has to be there before the shell starts.
#[derive(Debug, Clone)]
pub struct WrapperFile {
    pub name: String,
    pub contents: String,
}

/// Why a shell cannot be started.
#[derive(Debug, Clone, Copy, PartialEq, Eq, Structural)]
pub enum SpawnError {
    /// The path of the directory for the scripts is no text.
    NonUtf8WrapperPath,
}

/// The view of variables.
pub open spec fn env_view(env: Seq<(String, String)>) -> Seq<(Seq<char>, Seq<char>)> {
    env.map_values(|e: (String, String)| (e.0@, e.1@))
}

/// The view of a plan.
pub open spec fn spawn_view(s: ManagedSpawn) -> SpawnView {
    SpawnView { argv: strings_view(s.argv@), env: env_view(s.env@) }
}

/// The variables that every shell gets.
pub open spec fn shell_env(shell: ShellSpec, session_id: Seq<char>) -> Seq<
    (Seq<char>, Seq<char>),
> {
    seq![
        ("TERM_PROGRAM"@, "Termica"@),
        ("TERMICA_SESSION_ID"@, session_id),
        ("TERMICA_INTEGRATION_VERSION"@, decimal(INTEGRATION_VERSION as nat)),
        ("TERMICA_SHELL_INTEGRATION"@, "1"@),
        ("TERMICA_SHELL"@, shell_name(shell)),
    ]
}

/// The plan for a shell without integration.
pub open spec fn unmanaged_plan(shell: ShellSpec, session_id: Seq<char>) -> SpawnView {
    SpawnView { argv: seq![shell_name(shell), "-i"@], env: shell_env(shell, session_id) }
}

/// The plan for a shell with integration, whose scripts lie in `dir`.
pub open spec fn managed_plan(
    shell: ShellSpec,
    session_id: Seq<char>,
    dir: Seq<char>,
    fish_bootstrap: Seq<char>,
) -> SpawnView {
    match shell {
        ShellSpec::Zsh => SpawnView {
            argv: seq!["zsh"@, "-i"@],
            env: shell_env(shell, session_id).push(("ZDOTDIR"@, dir)),
        },
        ShellSpec::Bash => SpawnView {
            argv: seq![
                "bash"@,
                "--noprofile"@,
                "--noediting"@,
                "--rcfile"@,
                joined_path(dir, "bash-bootstrap.bash"@),
                "-i"@,
            ],
            env: shell_env(shell, session_id),
        },
        ShellSpec::Fish => SpawnView {
            argv: seq!["fish"@, "--no-config"@, "--init-command"@, fish_bootstrap, "-i"@],
            env: shell_env(shell, session_id),
        },
    }
}

/// Does the shell read its scripts from a directory?
pub open spec fn needs_directory(shell: ShellSpec) -> bool {
    shell != ShellSpec::Fish
}

/// One variable.
fn variable(name: &str, value: &str) -> (r: (String, String))
    ensures
        r.0@ == name@,
        r.1@ == value@,
{
    (name.to_owned(), value.to_owned())
}

/// The variables that every shell gets.
pub fn common_env(shell: ShellSpec, session_id: &str) -> (r: Vec<(String, String)>)
    ensures
        env_view(r@) == shell_env(shell, session_id@),
{
    let version = decimal_text(INTEGRATION_VERSION as u64);
    let env = vec![
        variable("TERM_PROGRAM", "Termica"),
        variable("TERMICA_SESSION_ID", session_id),
        variable("TERMICA_INTEGRATION_VERSION", version.as_str()),
        variable("TERMICA_SHELL_INTEGRATION", "1"),
        variable("TERMICA_SHELL", shell.name()),
    ];
    assert(env_view(env@) =~= shell_env(shell, session_id@));
    env
}

/// The plan for a shell without integration: it starts as it would anywhere,
/// and still learns where it runs.
pub fn unmanaged_spawn(shell: ShellSpec, session_id: &str) -> (r: ManagedSpawn)
    ensures
        spawn_view(r) == unmanaged_plan(shell, session_id@),
        r.pty_bootstrap is None,
{
    let argv = vec![shell.name().to_owned(), "-i".to_owned()];
    assert(strings_view(argv@) =~= seq![shell_name(shell), "-i"@]);
    ManagedSpawn { argv, pty_bootstrap: None, env: common_env(shell, session_id) }
}

/// The prefix of the name of the directory for the scripts, where one is needed.
pub fn wrapper_prefix(shell: ShellSpec, opt_out: bool) -> (r: Option<&'static str>)
    ensures
        (r is Some) == (!opt_out && needs_directory(shell)),
        r is Some ==> r.unwrap()@ == (if shell == ShellSpec::Zsh {
            "zsh-wrapper-"@
        } else {
            "bash-wrapper-"@
        }),
{
    if opt_out {
        return None;
    }
    match shell {
        ShellSpec::Zsh => Some("zsh-wrapper-"),
        ShellSpec::Bash => Some("bash-wrapper-"),
        ShellSpec::Fish => None,
    }
}

/// The view of files: their names and contents.
pub open spec fn files_view(files: Seq<WrapperFile>) -> Seq<(Seq<char>, Seq<char>)> {
    files.map_values(|f: WrapperFile| (f.name@, f.contents@))
}

/// The files that a shell with integration finds in its directory.
pub open spec fn plan_files(shell: ShellSpec, scripts: Bootstraps) -> Seq<(Seq<char>, Seq<char>)> {
    match shell {
        ShellSpec::Zsh => seq![(".zshrc"@, scripts.zsh@), (".zshenv"@, ""@)],
        ShellSpec::Bash => seq![
            ("bash-bootstrap.bash"@, scripts.bash@),
            ("bash-preexec.sh"@, scripts.bash_preexec@),
        ],
        ShellSpec::Fish => Seq::empty(),
    }
}

/// One file.
fn file(name: &str, contents: &str) -> (r: WrapperFile)
    ensures
        r.name@ == name@,
        r.contents@ == contents@,
{
    WrapperFile { name: name.to_owned(), contents: contents.to_owned() }
}

/// The files to write before the shell starts, in order.
///
/// zsh gets an empty `.zshenv` beside its `.zshrc`: the script sources the
/// user's own files itself, in order.
pub fn wrapper_files(shell: ShellSpec, opt_out: bool, scripts: &Bootstraps) -> (r: Vec<WrapperFile>)
    ensures
        files_view(r@) == (if opt_out {
            Seq::empty()
        } else {
            plan_files(shell, *scripts)
        }),
{
    let mut files: Vec<WrapperFile> = Vec::new();
    if !opt_out {
        match shell {
            ShellSpec::Zsh => {
                files.push(file(".zshrc", scripts.zsh.as_str()));
                files.push(file(".zshenv", ""));
            },
            ShellSpec::Bash => {
                files.push(file("bash-bootstrap.bash", scripts.bash.as_str()));
                files.push(file("bash-preexec.sh", scripts.bash_preexec.as_str()));
            },
            ShellSpec::Fish => {},
        }
    }
    assert(files_view(files@) =~= (if opt_out {
        Seq::empty()
    } else {
        plan_files(shell, *scripts)
    }));
    files
}

/// The plan for a shell. `wrapper_dir` is the directory that holds the files of
/// [`wrapper_files`], or none where its path is no text.
///
/// bash is not given `--norc`: some versions would then pass over `--rcfile`.
pub fn managed_spawn_for_inner(
    shell: ShellSpec,
    session_id: &str,
    opt_out: bool,
    fish_bootstrap: &str,
    wrapper_dir: Option<&str>,
) -> (r: Result<ManagedSpawn, SpawnError>)
    ensures
        (r is Err) == (!opt_out && needs_directory(shell) && wrapper_dir is None),
        r is Ok ==> r.unwrap().pty_bootstrap is None,
        r is Ok && opt_out ==> spawn_view(r.unwrap()) == unmanaged_plan(shell, session_id@),
        r is Ok && !opt_out ==> spawn_view(r.unwrap()) == managed_plan(
            shell,
            session_id@,
            if wrapper_dir is Some {
                wrapper_dir.unwrap()@
            } else {
                Seq::empty()
            },
            fish_bootstrap@,
        ),
{
    if opt_out {
        return Ok(unmanaged_spawn(shell, session_id));
    }
    let mut env = common_env(shell, session_id);
    let ghost base = env@;
    let argv: Vec<String>;
    match shell {
        ShellSpec::Zsh => {
            let dir = match wrapper_dir {
                Some(dir) => dir,
                None => return Err(SpawnError::NonUtf8WrapperPath),
            };
            env.push(variable("ZDOTDIR", dir));
            assert(env_view(env@) =~= env_view(base).push(("ZDOTDIR"@, dir@)));
            argv = vec!["zsh".to_owned(), "-i".to_owned()];
            assert(strings_view(argv@) =~= seq!["zsh"@, "-i"@]);
        },
        ShellSpec::Bash => {
            let dir = match wrapper_dir {
                Some(dir) => dir,
                None => return Err(SpawnError::NonUtf8WrapperPath),
            };
            argv = vec![
                "bash".to_owned(),
                "--noprofile".to_owned(),
                "--noediting".to_owned(),
                "--rcfile".to_owned(),
                join_path(dir, "bash-bootstrap.bash"),
                "-i".to_owned(),
            ];
            assert(strings_view(argv@) =~= managed_plan(
                shell,
                session_id@,
                dir@,
                fish_bootstrap@,
            ).argv);
        },
        ShellSpec::Fish => {
            argv = vec![
                "fish".to_owned(),
                "--no-config".to_owned(),
                "--init-command".to_owned(),
                fish_bootstrap.to_owned(),
                "-i".to_owned(),
            ];
            assert(strings_view(argv@) =~= seq![
                "fish"@,
                "--no-config"@,
                "--init-command"@,
                fish_bootstrap@,
                "-i"@,
            ]);
        },
    }
    Ok(ManagedSpawn { argv, pty_bootstrap: None, env })
}

/// The name under which a file is written before it is moved to its place:
/// hidden, in the same directory.
pub fn atomic_temp_name(name: Option<&str>) -> (r: String)
    ensures
        r@ == "."@ + (match name {
            Some(n) => n@,
            None => "termica-tmp"@,
        }) + ".tmp"@,
{
    let mut out = ".".to_owned();
    match name {
        Some(n) => out.append(n),
        None => out.append("termica-tmp"),
    }
    out.append(".tmp");
    out
}

// ---- sessions ----------------------------------------------------------

/// Is this a digit of a hexadecimal number, in lower case?
pub open spec fn lower_hex(c: char) -> bool {
    '0' <= c <= '9' || 'a' <= c <= 'f'
}

/// Is this the text of a random UUID: hexadecimal digits in groups of 8, 4, 4, 4
/// and 12 with hyphens between, with the version 4 and the usual variant?
pub open spec fn uuid_text(s: Seq<char>) -> bool {
    &&& s.len() == 36
    &&& forall|i: int|
        0 <= i < 36 ==> if i == 8 || i == 13 || i == 18 || i == 23 {
            #[trigger] s[i] == '-'
        } else {
            lower_hex(s[i])
        }
    &&& s[14] == '4'
    &&& (s[19] == '8' || s[19] == '9' || s[19] == 'a' || s[19] == 'b')
}

/// A random id. `uuid::Uuid::new_v4` draws the bits at random, and its
/// `to_string` gives them in lower case with hyphens. That two calls give
/// different ids is a matter of chance, and not claimed.
#[verifier::external_body]
fn random_id() -> (r: String)
    ensures
        uuid_text(r@),
{
    uuid::Uuid::new_v4().to_string()
}

/// A fresh session id, in the form of a version 4 UUID.
pub fn new_session_id() -> (r: String)
    ensures
        uuid_text(r@),
{
    random_id()
}

// ---- laws --------------------------------------------------------------

/// Every shell learns where it runs, with integration or without: the plan
/// starts with the same variables, and the first argument names the shell.
pub proof fn law_every_shell_learns_where_it_runs(
    shell: ShellSpec,
    session_id: Seq<char>,
    dir: Seq<char>,
    script: Seq<char>,
)
    ensures
        unmanaged_plan(shell, session_id).env == shell_env(shell, session_id),
        managed_plan(shell, session_id, dir, script).env.take(5) == shell_env(shell, session_id),
        unmanaged_plan(shell, session_id).argv[0] == shell_name(shell),
        managed_plan(shell, session_id, dir, script).argv[0] == shell_name(shell),
{
    assert(managed_plan(shell, session_id, dir, script).env.take(5) =~= shell_env(
        shell,
        session_id,
    ));
}

/// A shell is always started interactively: its last argument says so.
pub proof fn law_every_shell_is_interactive(
    shell: ShellSpec,
    session_id: Seq<char>,
    dir: Seq<char>,
    script: Seq<char>,
)
    ensures
        unmanaged_plan(shell, session_id).argv.last() == "-i"@,
        managed_plan(shell, session_id, dir, script).argv.last() == "-i"@,
{
}

/// The file that bash is told to read is one of those written for it.
pub proof fn law_bash_reads_what_is_written(
    scripts: Bootstraps,
    session_id: Seq<char>,
    dir: Seq<char>,
    script: Seq<char>,
)
    ensures
        managed_plan(ShellSpec::Bash, session_id, dir, script).argv[4] == joined_path(
            dir,
            plan_files(ShellSpec::Bash, scripts)[0].0,
        ),
        plan_files(ShellSpec::Bash, scripts)[0].1 == scripts.bash@,
{
}

/// bash is never told to pass over its rc file.
pub proof fn law_bash_never_skips_its_file(
    session_id: Seq<char>,
    dir: Seq<char>,
    script: Seq<char>,
    i: int,
)
    requires
        0 <= i < managed_plan(ShellSpec::Bash, session_id, dir, script).argv.len(),
        i != 4,
    ensures
        managed_plan(ShellSpec::Bash, session_id, dir, script).argv[i] != "--norc"@,
{
    reveal_strlit("bash");
    reveal_strlit("--noprofile");
    reveal_strlit("--noediting");
    reveal_strlit("--rcfile");
    reveal_strlit("-i");
    reveal_strlit("--norc");
    assert("--rcfile"@.len() != "--norc"@.len());
}

/// The name of a file is what stands behind the last slash of its path, whatever stands
/// before; slashes and parts `.` behind it do not count.
pub proof fn law_name_stands_behind_the_last_slash(dir: Seq<char>, name: Seq<char>)
    requires
        name.len() > 0,
        !name.contains('/'),
        name != seq!['.'],
        name != seq!['.', '.'],
    ensures
        file_name(name) == Some(name),
        file_name(dir + seq!['/'] + name) == Some(name),
        file_name(dir + seq!['/'] + name + seq!['/']) == Some(name),
        file_name(dir + seq!['/'] + name + seq!['/', '.']) == Some(name),
        file_name(dir + seq!['/', '.', '.']) is None,
        file_name(Seq::<char>::empty()) is None,
{
    let path = dir + seq!['/'] + name;
    lemma_part_behind(Seq::empty(), name);
    assert(Seq::<char>::empty() + name =~= name);
    assert(name.skip(0) =~= name);
    lemma_part_behind(dir + seq!['/'], name);
    assert(path.skip(dir.len() as int + 1) =~= name);
    let slashed = path + seq!['/'];
    assert(slashed.last() == '/');
    assert(slashed.skip(slashed.len() as int) =~= Seq::<char>::empty());
    assert(slashed.take(slashed.len() - 1) =~= path);
    let dotted = path + seq!['/', '.'];
    let dot = seq!['.'];
    assert(!dot.contains('/')) by {
        assert(dot[0] == '.');
    }
    lemma_part_behind(slashed, dot);
    assert(slashed + dot =~= dotted);
    assert(dotted.skip(slashed.len() as int) =~= dot);
    assert(dotted.take(slashed.len() - 1) =~= path);
    let up = seq!['.', '.'];
    assert(!up.contains('/')) by {
        assert(up[0] == '.' && up[1] == '.');
    }
    lemma_part_behind(dir + seq!['/'], up);
    assert(dir + seq!['/'] + up =~= dir + seq!['/', '.', '.']);
    assert((dir + seq!['/', '.', '.']).skip(dir.len() as int + 1) =~= up);
    assert(up != dot) by {
        assert(up.len() == 2);
        assert(dot.len() == 1);
    }
}

/// Where the last part of a path starts.
proof fn lemma_part_behind(head: Seq<char>, part: Seq<char>)
    requires
        head.len() == 0 || head.last() == '/',
        !part.contains('/'),
    ensures
        last_part_start(head + part) == head.len(),
    decreases part.len(),
{
    let all = head + part;
    if part.len() == 0 {
        assert(all =~= head);
    } else {
        assert(part.contains(part.last()));
        assert(all.last() == part.last());
        assert(all.drop_last() =~= head + part.drop_last());
        assert forall|k: int| 0 <= k < part.drop_last().len() implies part.drop_last()[k]
            != '/' by {
            assert(part.contains(part[k]));
        }
        lemma_part_behind(head, part.drop_last());
    }
}

/// Each shell is known by its name, and a name that is none of theirs stands for zsh.
pub proof fn law_shells_are_known_by_name(shell: ShellSpec, name: Option<Seq<char>>)
    ensures
        shell_of(Some(shell_name(shell))) == shell,
        shell_name(ShellSpec::Zsh) == "zsh"@,
        shell_name(ShellSpec::Bash) == "bash"@,
        shell_name(ShellSpec::Fish) == "fish"@,
        shell_of(name) == ShellSpec::Bash <==> name == Some("bash"@),
        shell_of(name) == ShellSpec::Fish <==> name == Some("fish"@),
{
    reveal_strlit("bash");
    reveal_strlit("zsh");
    reveal_strlit("fish");
    assert("bash"@[0] != "fish"@[0]);
    assert("zsh"@.len() == 3);
}

/// What every shell is told: the program that it runs in, its session, the version of the
/// protocol, that it is to report, and which shell it is.
pub proof fn law_what_every_shell_is_told(shell: ShellSpec, session_id: Seq<char>)
    ensures
        ({
            let env = shell_env(shell, session_id);
            &&& env.len() == 5
            &&& env[0].0 == "TERM_PROGRAM"@ && env[0].1 == "Termica"@
            &&& env[1].0 == "TERMICA_SESSION_ID"@ && env[1].1 == session_id
            &&& env[2].0 == "TERMICA_INTEGRATION_VERSION"@ && env[2].1 == seq!['1']
            &&& env[3].0 == "TERMICA_SHELL_INTEGRATION"@ && env[3].1 == "1"@
            &&& env[4].0 == "TERMICA_SHELL"@ && env[4].1 == shell_name(shell)
        }),
{
    assert(decimal(1) =~= seq!['1']);
}

/// How each shell is made to run its script: zsh by a directory of its own, in which the
/// script is its `.zshrc` and its `.zshenv` is empty; bash by a file that it reads in
/// place of its own, without its profile and its line editor; fish by a command, without
/// its configuration and without a file.
pub proof fn law_how_each_shell_runs_its_script(
    session_id: Seq<char>,
    dir: Seq<char>,
    script: Seq<char>,
    scripts: Bootstraps,
)
    ensures
        ({
            let zsh = managed_plan(ShellSpec::Zsh, session_id, dir, script);
            let files = plan_files(ShellSpec::Zsh, scripts);
            &&& zsh.argv == seq!["zsh"@, "-i"@]
            &&& zsh.env.len() == 6 && zsh.env[5].0 == "ZDOTDIR"@ && zsh.env[5].1 == dir
            &&& files.len() == 2
            &&& files[0].0 == ".zshrc"@ && files[0].1 == scripts.zsh@
            &&& files[1].0 == ".zshenv"@ && files[1].1.len() == 0
        }),
        ({
            let bash = managed_plan(ShellSpec::Bash, session_id, dir, script);
            let files = plan_files(ShellSpec::Bash, scripts);
            &&& bash.argv.len() == 6 && bash.argv[0] == "bash"@
            &&& bash.argv[1] == "--noprofile"@ && bash.argv[2] == "--noediting"@
            &&& bash.argv[3] == "--rcfile"@ && bash.argv[4] == joined_path(
                dir,
                "bash-bootstrap.bash"@,
            )
            &&& bash.argv[5] == "-i"@
            &&& bash.env == shell_env(ShellSpec::Bash, session_id)
            &&& files.len() == 2
            &&& files[0].0 == "bash-bootstrap.bash"@ && files[0].1 == scripts.bash@
            &&& files[1].0 == "bash-preexec.sh"@ && files[1].1 == scripts.bash_preexec@
        }),
        ({
            let fish = managed_plan(ShellSpec::Fish, session_id, dir, script);
            &&& fish.argv.len() == 5 && fish.argv[0] == "fish"@
            &&& fish.argv[1] == "--no-config"@
            &&& fish.argv[2] == "--init-command"@ && fish.argv[3] == script
            &&& fish.argv[4] == "-i"@
            &&& fish.env == shell_env(ShellSpec::Fish, session_id)
            &&& plan_files(ShellSpec::Fish, scripts).len() == 0
        }),
        needs_directory(ShellSpec::Zsh),
        needs_directory(ShellSpec::Bash),
        !needs_directory(ShellSpec::Fish),
{
    reveal_strlit("");
}

/// A shell without integration is started by its name alone, interactively.
pub proof fn law_bare_shells(shell: ShellSpec, session_id: Seq<char>)
    ensures
        unmanaged_plan(shell, session_id).argv.len() == 2,
        unmanaged_plan(shell, session_id).argv[0] == shell_name(shell),
        unmanaged_plan(shell, session_id).argv[1] == "-i"@,
        unmanaged_plan(shell, session_id).env == shell_env(shell, session_id),
{
}

/// What [`managed_spawn_for_inner`] plans for fish and for a shell without integration,
/// argument by argument, with the variables that every shell gets in front.
pub proof fn law_plans_as_made(
    shell: ShellSpec,
    session_id: &str,
    opt_out: bool,
    script: &str,
    dir: Option<&str>,
    r: Result<ManagedSpawn, SpawnError>,
)
    requires
        call_ensures(managed_spawn_for_inner, (shell, session_id, opt_out, script, dir), r),
    ensures
        r is Err <==> !opt_out && shell != ShellSpec::Fish && dir is None,
        r matches Ok(plan) ==> {
            &&& plan.pty_bootstrap is None
            &&& plan.argv@.len() >= 2
            &&& plan.argv@[0]@ == shell_name(shell)
            &&& plan.argv@.last()@ == "-i"@
            &&& plan.env@.len() >= 5
            &&& plan.env@[1].0@ == "TERMICA_SESSION_ID"@ && plan.env@[1].1@ == session_id@
            &&& opt_out ==> plan.argv@.len() == 2 && plan.env@.len() == 5
            &&& !opt_out && shell == ShellSpec::Fish ==> plan.argv@.len() == 5 && plan.argv@[3]@
                == script@
            &&& !opt_out && shell == ShellSpec::Zsh ==> plan.env@.len() == 6 && plan.env@[5].0@
                == "ZDOTDIR"@ && plan.env@[5].1@ == dir.unwrap()@
            &&& !opt_out && shell == ShellSpec::Bash ==> plan.argv@.len() == 6 && plan.argv@[4]@
                == joined_path(dir.unwrap()@, "bash-bootstrap.bash"@)
        },
{
    if let Ok(plan) = r {
        let argv = spawn_view(plan).argv;
        let env = spawn_view(plan).env;
        assert(argv.len() == plan.argv@.len());
        assert(env.len() == plan.env@.len());
        assert(argv[0] == plan.argv@[0]@);
        assert(argv.last() == plan.argv@.last()@);
        assert(env[1] == (plan.env@[1].0@, plan.env@[1].1@));
        if !opt_out && shell == ShellSpec::Fish {
            assert(argv[3] == plan.argv@[3]@);
        }
        if !opt_out && shell == ShellSpec::Zsh {
            assert(env[5] == (plan.env@[5].0@, plan.env@[5].1@));
        }
        if !opt_out && shell == ShellSpec::Bash {
            assert(argv[4] == plan.argv@[4]@);
        }
    }
}

/// Where a shell's files go, and under which names files are written first.
pub proof fn law_names_of_wrappers(
    shell: ShellSpec,
    opt_out: bool,
    prefix: Option<&'static str>,
    name: &str,
    temp: String,
    other: String,
)
    requires
        call_ensures(wrapper_prefix, (shell, opt_out), prefix),
        call_ensures(atomic_temp_name, (Some(name),), temp),
        call_ensures(atomic_temp_name, (None,), other),
    ensures
        prefix is Some <==> !opt_out && shell != ShellSpec::Fish,
        !opt_out && shell == ShellSpec::Zsh ==> prefix.unwrap()@ == "zsh-wrapper-"@,
        !opt_out && shell == ShellSpec::Bash ==> prefix.unwrap()@ == "bash-wrapper-"@,
        temp@ == "."@ + name@ + ".tmp"@,
        other@ == "."@ + "termica-tmp"@ + ".tmp"@,
{
}

} // verus!
