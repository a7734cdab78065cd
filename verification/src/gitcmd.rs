//! The git driver's side of the core: the exact command lines it runs, the
//! plan it follows when setting up the bare and working repositories, the
//! scheduler's tick, and the rewritten index `config.json`.
//!
//! Running the git binary is I/O and stays outside the library; everything
//! here computes what to run and what to write.

use vstd::prelude::*;

use crate::hashes::hex_char;
use crate::hashes::push_char;
use crate::hashes::spec_hex_char;

verus! {

/// An invocation of an external command, optionally pinned to a working
/// directory.
pub struct GitCmd {
    pub cmd: String,
    pub dir: Option<String>,
}

impl GitCmd {
    /// A git invocation that runs inside the given directory.
    pub fn dir(dir: &str) -> (r: GitCmd)
        ensures
            r.cmd@ == "git"@,
            r.dir matches Some(d) && d@ == dir@,
    {
        GitCmd { cmd: String::from_str("git"), dir: Some(String::from_str(dir)) }
    }

    /// A git invocation with no pinned directory.
    pub fn new() -> (r: GitCmd)
        ensures
            r.cmd@ == "git"@,
            r.dir is None,
    {
        GitCmd { cmd: String::from_str("git"), dir: None }
    }

    /// An invocation of an arbitrary command with no pinned directory.
    pub fn cmd(cmd: &str) -> (r: GitCmd)
        ensures
            r.cmd@ == cmd@,
            r.dir is None,
    {
        GitCmd { cmd: String::from_str(cmd), dir: None }
    }
}

/// Whether two strings hold the same characters.
pub fn str_eq(a: &str, b: &str) -> (r: bool)
    ensures
        r == (a@ == b@),
{
    let sa = String::from_str(a);
    let sb = String::from_str(b);
    sa == sb
}

/// The command that stages every change in the working tree.
pub fn add_command() -> (r: String)
    ensures
        r@ == "add ."@,
{
    String::from_str("add .")
}

/// The commit command for a message: the message stands inside double
/// quotes as one argument.
pub open spec fn spec_commit_command(msg: Seq<char>) -> Seq<char> {
    "commit -m \""@ + msg + "\""@
}

pub fn commit_command(msg: &str) -> (r: String)
    ensures
        r@ == spec_commit_command(msg@),
{
    let mut r = String::from_str("commit -m \"");
    r.append(msg);
    r.append("\"");
    r
}

/// The push that publishes the working tree to the bare index repo.
pub fn push_origin_command() -> (r: String)
    ensures
        r@ == "push origin master"@,
{
    String::from_str("push origin master")
}

/// The pull that brings in upstream index changes; `--progress` is required
/// for the subprocess to report over a pipe.
pub fn pull_upstream_command() -> (r: String)
    ensures
        r@ == "pull --progress upstream master"@,
{
    String::from_str("pull --progress upstream master")
}

pub fn init_bare_command() -> (r: String)
    ensures
        r@ == "init --bare"@,
{
    String::from_str("init --bare")
}

pub fn rev_parse_bare_command() -> (r: String)
    ensures
        r@ == "rev-parse --is-bare-repository"@,
{
    String::from_str("rev-parse --is-bare-repository")
}

pub fn rev_parse_work_tree_command() -> (r: String)
    ensures
        r@ == "rev-parse --is-inside-work-tree"@,
{
    String::from_str("rev-parse --is-inside-work-tree")
}

/// The clone of the bare index repo into the working directory.
pub open spec fn spec_clone_command(index_path: Seq<char>, dir_name: Seq<char>) -> Seq<char> {
    "clone "@ + index_path + " "@ + dir_name
}

pub fn clone_command(index_path: &str, dir_name: &str) -> (r: String)
    ensures
        r@ == spec_clone_command(index_path@, dir_name@),
{
    let mut r = String::from_str("clone ");
    r.append(index_path);
    r.append(" ");
    r.append(dir_name);
    r
}

/// The command that registers the upstream index as a remote of the
/// working tree.
pub open spec fn spec_remote_add_command(url: Seq<char>) -> Seq<char> {
    "remote add upstream "@ + url
}

pub fn remote_add_upstream_command(url: &str) -> (r: String)
    ensures
        r@ == spec_remote_add_command(url@),
{
    let mut r = String::from_str("remote add upstream ");
    r.append(url);
    r
}

/// One planned external command: the directory to run in and the command
/// line to parse into argv elements.
pub struct PlannedCommand {
    pub dir: String,
    pub args: String,
}

/// Computes the commands that make `<index_path>` a bare repo and
/// `<working_path>` a clone of it with the upstream remote set: nothing for
/// a part that already probes as set up.  A probe argument carries the
/// trimmed output of the directory's `rev-parse` query, or `None` when that
/// command failed.
pub fn init_repo_plan(
    bare_probe: Option<&str>,
    work_probe: Option<&str>,
    index_path: &str,
    working_path: &str,
    working_parent: &str,
    working_dir_name: &str,
    upstream_url: &str,
) -> (plan: Vec<PlannedCommand>)
    ensures
        ({
            let bare_ok = bare_probe matches Some(p) && p@ == "true"@;
            let work_ok = work_probe matches Some(p) && p@ == "true"@;
            &&& plan@.len() == (if bare_ok {
                0int
            } else {
                1int
            }) + (if work_ok {
                0int
            } else {
                2int
            })
            &&& !bare_ok ==> {
                &&& plan@[0].dir@ == index_path@
                &&& plan@[0].args@ == "init --bare"@
            }
            &&& !work_ok ==> {
                let base = if bare_ok {
                    0int
                } else {
                    1int
                };
                &&& plan@[base].dir@ == working_parent@
                &&& plan@[base].args@ == spec_clone_command(index_path@, working_dir_name@)
                &&& plan@[base + 1].dir@ == working_path@
                &&& plan@[base + 1].args@ == spec_remote_add_command(upstream_url@)
            }
        }),
{
    let mut plan: Vec<PlannedCommand> = Vec::new();
    let bare_ok = match bare_probe {
        Some(p) => str_eq(p, "true"),
        None => false,
    };
    if !bare_ok {
        plan.push(PlannedCommand { dir: String::from_str(index_path), args: init_bare_command() });
    }
    let work_ok = match work_probe {
        Some(p) => str_eq(p, "true"),
        None => false,
    };
    if !work_ok {
        plan.push(
            PlannedCommand {
                dir: String::from_str(working_parent),
                args: clone_command(index_path, working_dir_name),
            },
        );
        plan.push(
            PlannedCommand {
                dir: String::from_str(working_path),
                args: remote_add_upstream_command(upstream_url),
            },
        );
    }
    plan
}

/// The two command lines of a commit: stage everything, then commit with
/// the quoted message.
pub fn commit_commands(msg: &str) -> (r: Vec<String>)
    ensures
        r@.len() == 2,
        r@[0]@ == "add ."@,
        r@[1]@ == spec_commit_command(msg@),
{
    let mut r: Vec<String> = Vec::new();
    r.push(add_command());
    r.push(commit_command(msg));
    r
}

/// One step of the git driver's lifecycle.
#[derive(Clone, Copy, PartialEq, Eq, Structural, Debug)]
pub enum GitStep {
    /// Ensure the bare repo and the working clone exist.
    InitRepo,
    /// Pull upstream changes into the working tree.
    SyncUpstream,
    /// Rewrite the index `config.json` and commit it when it changed.
    RewriteConfig,
    /// Push the working tree to the bare repo.
    SyncIndex,
}

/// The steps of `initialize`, in order: set the repos up, pull upstream,
/// point `config.json` at this service, and push to the bare repo.
pub fn initialize_steps() -> (r: Vec<GitStep>)
    ensures
        r@ =~= seq![GitStep::InitRepo, GitStep::SyncUpstream, GitStep::RewriteConfig, GitStep::SyncIndex],
{
    let mut r: Vec<GitStep> = Vec::new();
    r.push(GitStep::InitRepo);
    r.push(GitStep::SyncUpstream);
    r.push(GitStep::RewriteConfig);
    r.push(GitStep::SyncIndex);
    r
}

/// The work of one scheduler tick: nothing before the system is
/// initialized; afterwards an upstream pull, invoked twice, the second
/// standing as the index-push step.
pub fn scheduler_tick(inited: bool) -> (r: Vec<GitStep>)
    ensures
        inited ==> r@ =~= seq![GitStep::SyncUpstream, GitStep::SyncUpstream],
        !inited ==> r@ =~= Seq::<GitStep>::empty(),
{
    let mut r: Vec<GitStep> = Vec::new();
    if inited {
        r.push(GitStep::SyncUpstream);
        r.push(GitStep::SyncUpstream);
    }
    r
}

/// How one char stands inside a JSON string: quote, backslash and the named
/// control chars get a two-char escape, other control chars the `\u00XX`
/// form, and everything else stands as itself.
pub open spec fn spec_json_escape_char(c: char) -> Seq<char> {
    if c == '"' {
        seq!['\\', '"']
    } else if c == '\\' {
        seq!['\\', '\\']
    } else if c as u32 == 8 {
        seq!['\\', 'b']
    } else if c as u32 == 9 {
        seq!['\\', 't']
    } else if c as u32 == 10 {
        seq!['\\', 'n']
    } else if c as u32 == 12 {
        seq!['\\', 'f']
    } else if c as u32 == 13 {
        seq!['\\', 'r']
    } else if (c as u32) < 32 {
        let hi = spec_hex_char((c as u32 / 16) as u8);
        let lo = spec_hex_char((c as u32 % 16) as u8);
        seq!['\\', 'u', '0', '0', hi, lo]
    } else {
        seq![c]
    }
}

/// A string's characters inside a JSON string literal.
pub open spec fn spec_json_escape(s: Seq<char>) -> Seq<char>
    decreases s.len(),
{
    if s.len() == 0 {
        Seq::empty()
    } else {
        spec_json_escape_char(s[0]) + spec_json_escape(s.drop_first())
    }
}

fn push_json_escaped_char(out: &mut String, c: char)
    ensures
        final(out)@ == old(out)@ + spec_json_escape_char(c),
{
    let n = c as u32;
    if c == '"' {
        push_char(out, '\\');
        push_char(out, '"');
    } else if c == '\\' {
        push_char(out, '\\');
        push_char(out, '\\');
    } else if n == 8 {
        push_char(out, '\\');
        push_char(out, 'b');
    } else if n == 9 {
        push_char(out, '\\');
        push_char(out, 't');
    } else if n == 10 {
        push_char(out, '\\');
        push_char(out, 'n');
    } else if n == 12 {
        push_char(out, '\\');
        push_char(out, 'f');
    } else if n == 13 {
        push_char(out, '\\');
        push_char(out, 'r');
    } else if n < 32 {
        push_char(out, '\\');
        push_char(out, 'u');
        push_char(out, '0');
        push_char(out, '0');
        push_char(out, hex_char((n / 16) as u8));
        push_char(out, hex_char((n % 16) as u8));
    } else {
        push_char(out, c);
    }
    proof {
        assert(final(out)@ =~= old(out)@ + spec_json_escape_char(c));
    }
}

/// Escapes a string for use inside a JSON string literal, exactly as the
/// JSON serializer the index format uses does.
pub fn json_escape(s: &str) -> (r: String)
    ensures
        r@ == spec_json_escape(s@),
{
    let mut r = String::new();
    let len = s.unicode_len();
    let mut i: usize = 0;
    proof {
        assert(s@.skip(0) =~= s@);
    }
    while i < len
        invariant
            len == s@.len(),
            i <= len,
            spec_json_escape(s@) =~= r@ + spec_json_escape(s@.skip(i as int)),
        decreases len - i,
    {
        let c = s.get_char(i);
        let ghost suffix = s@.skip(i as int);
        proof {
            assert(suffix.len() > 0);
            assert(suffix[0] == c);
            assert(suffix.drop_first() =~= s@.skip(i + 1));
        }
        push_json_escaped_char(&mut r, c);
        proof {
            assert(spec_json_escape(s@) =~= r@ + spec_json_escape(s@.skip(i + 1)));
        }
        i = i + 1;
    }
    proof {
        assert(s@.skip(len as int) =~= Seq::<char>::empty());
        assert(r@ + spec_json_escape(Seq::<char>::empty()) =~= r@);
    }
    r
}

/// The index `config.json` contents for a service address: the download
/// endpoint under the address, and the address as the API root, in the
/// pretty two-space form the index carries.
pub open spec fn spec_index_config_json(address: Seq<char>) -> Seq<char> {
    "{\n  \"dl\": \""@ + spec_json_escape(address + "/api/v1/crates"@) + "\",\n  \"api\": \""@
        + spec_json_escape(address) + "\"\n}"@
}

pub fn index_config_json(address: &str) -> (r: String)
    ensures
        r@ == spec_index_config_json(address@),
{
    let mut dl = String::from_str(address);
    dl.append("/api/v1/crates");
    let mut r = String::from_str("{\n  \"dl\": \"");
    let dl_escaped = json_escape(dl.as_str());
    r.append(dl_escaped.as_str());
    r.append("\",\n  \"api\": \"");
    let addr_escaped = json_escape(address);
    r.append(addr_escaped.as_str());
    r.append("\"\n}");
    r
}

/// Whether the working tree's `config.json` must be rewritten and
/// committed: only when its current contents differ from the desired ones.
pub fn config_needs_rewrite(current: &str, address: &str) -> (r: bool)
    ensures
        r == (current@ != spec_index_config_json(address@)),
{
    let desired = index_config_json(address);
    !str_eq(current, desired.as_str())
}

/// Where a git installation keeps `git-http-backend`, given the path of the
/// git binary: under `lib/git-core` or `libexec/git-core` beside `bin/git`.
pub open spec fn spec_backend_candidate(git_path: Seq<char>, libdir: Seq<char>) -> Seq<char> {
    spec_replace(git_path, "bin/git"@, libdir) + "/git-core/git-http-backend"@
}

/// Every occurrence of `from` in `s` replaced by `to`, scanning left to
/// right without overlap, as `str::replace` does for a nonempty pattern.
pub open spec fn spec_replace(s: Seq<char>, from: Seq<char>, to: Seq<char>) -> Seq<char>
    recommends
        from.len() > 0,
    decreases s.len(),
    when from.len() > 0
{
    if s.len() == 0 {
        Seq::empty()
    } else if s.len() >= from.len() && s.take(from.len() as int) == from {
        to + spec_replace(s.skip(from.len() as int), from, to)
    } else {
        seq![s[0]] + spec_replace(s.drop_first(), from, to)
    }
}

/// Whether `pat` stands at position `i` of `s`.
fn matches_at(s: &str, i: usize, pat: &str) -> (r: bool)
    requires
        i + pat@.len() <= s@.len(),
        s@.len() <= usize::MAX,
    ensures
        r == (s@.subrange(i as int, i + pat@.len()) == pat@),
{
    let plen = pat.unicode_len();
    let mut j: usize = 0;
    while j < plen
        invariant
            plen == pat@.len(),
            i + plen <= s@.len(),
            s@.len() <= usize::MAX,
            j <= plen,
            forall|k: int| 0 <= k < j ==> s@[i + k] == pat@[k],
        decreases plen - j,
    {
        if s.get_char(i + j) != pat.get_char(j) {
            proof {
                assert(s@.subrange(i as int, i + pat@.len())[j as int] != pat@[j as int]);
            }
            return false;
        }
        j = j + 1;
    }
    proof {
        assert(s@.subrange(i as int, i + pat@.len()) =~= pat@);
    }
    true
}

/// Replaces every occurrence of `from` with `to`, scanning left to right.
pub fn replace_all(s: &str, from: &str, to: &str) -> (r: String)
    requires
        from@.len() > 0,
    ensures
        r@ == spec_replace(s@, from@, to@),
{
    let mut r = String::new();
    let len = s.unicode_len();
    let flen = from.unicode_len();
    let mut i: usize = 0;
    proof {
        assert(s@.skip(0) =~= s@);
    }
    while i < len
        invariant
            len == s@.len(),
            flen == from@.len(),
            flen > 0,
            i <= len,
            spec_replace(s@, from@, to@) =~= r@ + spec_replace(s@.skip(i as int), from@, to@),
        decreases len - i,
    {
        let ghost suffix = s@.skip(i as int);
        if len - i >= flen && matches_at(s, i, from) {
            proof {
                assert(suffix.take(flen as int) =~= s@.subrange(i as int, i + flen));
                assert(suffix.skip(flen as int) =~= s@.skip(i + flen));
            }
            r.append(to);
            proof {
                assert(spec_replace(s@, from@, to@) =~= r@ + spec_replace(
                    s@.skip(i + flen),
                    from@,
                    to@,
                ));
            }
            i = i + flen;
        } else {
            proof {
                assert(suffix.len() > 0);
                if suffix.len() >= flen {
                    assert(suffix.take(flen as int) =~= s@.subrange(i as int, i + flen));
                }
                assert(suffix[0] == s@[i as int]);
                assert(suffix.drop_first() =~= s@.skip(i + 1));
            }
            let c = s.get_char(i);
            push_char(&mut r, c);
            proof {
                assert(spec_replace(s@, from@, to@) =~= r@ + spec_replace(
                    s@.skip(i + 1),
                    from@,
                    to@,
                ));
            }
            i = i + 1;
        }
    }
    proof {
        assert(s@.skip(len as int) =~= Seq::<char>::empty());
        assert(r@ + spec_replace(Seq::<char>::empty(), from@, to@) =~= r@);
    }
    r
}

/// The two candidate paths of `git-http-backend` for a git binary at
/// `git_path`: the `lib` and `libexec` layouts.
pub fn backend_candidates(git_path: &str) -> (r: (String, String))
    ensures
        r.0@ == spec_backend_candidate(git_path@, "lib"@),
        r.1@ == spec_backend_candidate(git_path@, "libexec"@),
{
    proof {
        reveal_strlit("bin/git");
    }
    let mut first = replace_all(git_path, "bin/git", "lib");
    first.append("/git-core/git-http-backend");
    let mut second = replace_all(git_path, "bin/git", "libexec");
    second.append("/git-core/git-http-backend");
    (first, second)
}

} // verus!
