use mirror_registry::cgi::parse_cgi_output;
use mirror_registry::cgi::path_info;
use mirror_registry::config::format_interval;
use mirror_registry::config::init_finish;
use mirror_registry::config::init_gate;
use mirror_registry::config::parse_interval;
use mirror_registry::config::InitDecision;
use mirror_registry::config::InitFlags;
use mirror_registry::errors::RegistryError;
use mirror_registry::gitargs::convert_args;
use mirror_registry::gitcmd::backend_candidates;
use mirror_registry::gitcmd::commit_command;
use mirror_registry::gitcmd::commit_commands;
use mirror_registry::gitcmd::index_config_json;
use mirror_registry::gitcmd::init_repo_plan;
use mirror_registry::gitcmd::json_escape;
use mirror_registry::gitcmd::pull_upstream_command;
use mirror_registry::gitcmd::push_origin_command;
use mirror_registry::gitcmd::scheduler_tick;
use mirror_registry::gitcmd::GitCmd;
use mirror_registry::gitcmd::GitStep;

#[test]
fn test_convert_args() {
    let test_str = "commit -m \"change config.json to mirror\"";
    let result = vec!["commit", "-m", "\"change config.json to mirror\""];
    assert_eq!(result, convert_args(test_str).unwrap())
}

#[test]
fn convert_args_plain_words() {
    let r = convert_args("push origin master").unwrap();
    assert_eq!(r, vec!["push", "origin", "master"]);
}

#[test]
fn convert_args_unterminated_quote_fails() {
    let r = convert_args("commit -m \"no closing quote");
    assert_eq!(r.unwrap_err(), RegistryError::InvalidRequest);
}

#[test]
fn convert_args_collapses_whitespace() {
    let r = convert_args("  add   .  ").unwrap();
    assert_eq!(r, vec!["add", "."]);
}

#[test]
fn commit_command_quotes_message() {
    assert_eq!(commit_command("add crate foo-0.1.0"), "commit -m \"add crate foo-0.1.0\"");
    let cmds = commit_commands("yank foo-0.1.0");
    assert_eq!(cmds[0], "add .");
    assert_eq!(cmds[1], "commit -m \"yank foo-0.1.0\"");
}

#[test]
fn fixed_commands() {
    assert_eq!(push_origin_command(), "push origin master");
    assert_eq!(pull_upstream_command(), "pull --progress upstream master");
    let c = GitCmd::dir("/tmp/work");
    assert_eq!(c.cmd, "git");
    assert_eq!(c.dir.as_deref(), Some("/tmp/work"));
    assert!(GitCmd::new().dir.is_none());
}

#[test]
fn init_plan_on_clean_tree() {
    let plan = init_repo_plan(
        None,
        None,
        "/srv/index.git",
        "/srv/work.git",
        "/srv",
        "work.git",
        "https://example.org/idx.git",
    );
    assert_eq!(plan.len(), 3);
    assert_eq!(plan[0].dir, "/srv/index.git");
    assert_eq!(plan[0].args, "init --bare");
    assert_eq!(plan[1].dir, "/srv");
    assert_eq!(plan[1].args, "clone /srv/index.git work.git");
    assert_eq!(plan[2].dir, "/srv/work.git");
    assert_eq!(plan[2].args, "remote add upstream https://example.org/idx.git");
}

#[test]
fn init_plan_on_initialized_tree_is_empty() {
    let plan = init_repo_plan(
        Some("true"),
        Some("true"),
        "/srv/index.git",
        "/srv/work.git",
        "/srv",
        "work.git",
        "https://example.org/idx.git",
    );
    assert_eq!(plan.len(), 0);
}

#[test]
fn initialize_runs_its_steps_in_order() {
    let steps = mirror_registry::gitcmd::initialize_steps();
    assert_eq!(
        steps,
        vec![
            GitStep::InitRepo,
            GitStep::SyncUpstream,
            GitStep::RewriteConfig,
            GitStep::SyncIndex
        ]
    );
}

#[test]
fn scheduler_runs_only_when_inited() {
    assert_eq!(scheduler_tick(false).len(), 0);
    let ticks = scheduler_tick(true);
    assert_eq!(ticks.len(), 2);
    assert_eq!(ticks[0], GitStep::SyncUpstream);
    assert_eq!(ticks[1], GitStep::SyncUpstream);
}

#[test]
fn config_json_points_at_service() {
    let body = index_config_json("http://mirror.example:55555");
    assert_eq!(
        body,
        "{\n  \"dl\": \"http://mirror.example:55555/api/v1/crates\",\n  \"api\": \"http://mirror.example:55555\"\n}"
    );
}

#[test]
fn json_escape_special_chars() {
    assert_eq!(json_escape("plain"), "plain");
    assert_eq!(json_escape("a\"b\\c"), "a\\\"b\\\\c");
    assert_eq!(json_escape("line\nbreak\ttab"), "line\\nbreak\\ttab");
    assert_eq!(json_escape("\u{1}"), "\\u0001");
}

#[test]
fn backend_candidates_replace_bin_git() {
    let (lib, libexec) = backend_candidates("/usr/bin/git");
    assert_eq!(lib, "/usr/lib/git-core/git-http-backend");
    assert_eq!(libexec, "/usr/libexec/git-core/git-http-backend");
}

#[test]
fn path_info_strips_prefix_and_query() {
    let p = path_info("/registry/crates.io-index/info/refs?service=git-upload-pack", "/registry/crates.io-index");
    assert_eq!(p, "/info/refs");
    let q = path_info("/registry/crates.io-index/HEAD", "/registry/crates.io-index");
    assert_eq!(q, "/HEAD");
}

#[test]
fn cgi_output_parses_status_headers_and_body() {
    let out = b"Status: 404 Not Found\nContent-Type: text/plain\n\nmissing";
    let resp = parse_cgi_output(out).unwrap();
    assert_eq!(resp.code, 404);
    assert_eq!(resp.headers.len(), 1);
    assert_eq!(resp.headers[0].0, b"Content-Type".to_vec());
    assert_eq!(resp.headers[0].1, b"text/plain".to_vec());
    assert_eq!(resp.body, b"missing".to_vec());
}

#[test]
fn cgi_output_defaults_to_200() {
    let out = b"Content-Type: application/x-git-upload-pack-advertisement\n\npayload bytes";
    let resp = parse_cgi_output(out).unwrap();
    assert_eq!(resp.code, 200);
    assert_eq!(resp.body, b"payload bytes".to_vec());
}

#[test]
fn cgi_output_rejects_malformed_header() {
    let out = b"not a header line\n\nbody";
    let r = parse_cgi_output(out);
    match r {
        Ok(_) => panic!("malformed header accepted"),
        Err(e) => assert_eq!(e, RegistryError::Internal),
    }
}

#[test]
fn cgi_output_without_blank_line_has_empty_body() {
    let out = b"Content-Type: text/plain\n";
    let resp = parse_cgi_output(out).unwrap();
    assert_eq!(resp.code, 200);
    assert_eq!(resp.body.len(), 0);
}

#[test]
fn interval_parses_units() {
    assert_eq!(parse_interval("30m").unwrap(), 1800);
    assert_eq!(parse_interval("6h").unwrap(), 21600);
    assert_eq!(parse_interval("1d").unwrap(), 86400);
    assert_eq!(parse_interval("6x").unwrap_err(), RegistryError::InvalidRequest);
    assert_eq!(parse_interval("h").unwrap_err(), RegistryError::InvalidRequest);
    assert_eq!(parse_interval("-6h").unwrap_err(), RegistryError::InvalidRequest);
}

#[test]
fn interval_formats_largest_unit() {
    assert_eq!(format_interval(21600), "6h");
    assert_eq!(format_interval(86400), "1d");
    assert_eq!(format_interval(1800), "30m");
    assert_eq!(format_interval(59), "0m");
}

#[test]
fn init_gate_is_single_flight() {
    let mut flags = InitFlags { inited: false, busy: false };
    assert_eq!(init_gate(&mut flags), InitDecision::Proceed);
    assert!(flags.busy);
    assert_eq!(init_gate(&mut flags), InitDecision::Busy);
    init_finish(&mut flags, false);
    assert!(!flags.busy);
    assert!(!flags.inited);
    assert_eq!(init_gate(&mut flags), InitDecision::Proceed);
    init_finish(&mut flags, true);
    assert!(flags.inited);
    assert_eq!(init_gate(&mut flags), InitDecision::AlreadyDone);
}
