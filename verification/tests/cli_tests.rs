use cli_help_docs::cmd::Cmd;
use cli_help_docs::discover::Discovery;
use cli_help_docs::errors::Error;
use cli_help_docs::merge::update_root_summary;
use cli_help_docs::parse::{parse_description, parse_sub_commands};
use cli_help_docs::render::{
    cmd_markdown, cmd_summary, default_replacements, help_markdown, md_path, preprocess_help,
    readme_text, render_root_summary, render_summary, render_summary_doc,
};

const APP_HELP: &str = "A demo app\n\nUsage: app [OPTIONS] <COMMAND>\n\nCommands:\n  db    manage database\n  help  Print this message\n\nOptions:\n  -h, --help  Print help\n";
const DB_HELP: &str = "manage database\n\nUsage: app db <COMMAND>\n\nCommands:\n  stats  show stats\n  help   Print this message\n\nOptions:\n  -h, --help  Print help\n";
const STATS_HELP: &str = "show stats\n\nUsage: app db stats\n\nOptions:\n  -h, --help  Print help\n";

fn help_for(rendered: &str) -> String {
    match rendered {
        "app" => APP_HELP.to_string(),
        "app db" => DB_HELP.to_string(),
        "app db stats" => STATS_HELP.to_string(),
        other => panic!("unexpected command {other}"),
    }
}

fn drive(seeds: Vec<Cmd>) -> Vec<(Cmd, String)> {
    let mut d = Discovery::new(seeds);
    while let Some(c) = d.next_command() {
        let h = help_for(&c.rendered());
        d.record(h);
    }
    d.entries()
}

#[test]
fn subcommands_are_extracted_in_order() {
    let subs = parse_sub_commands(APP_HELP);
    assert_eq!(subs, vec!["db".to_string()]);
    let many = "Commands:\n  alpha  first\n  beta   second\n  gamma  third\n";
    assert_eq!(
        parse_sub_commands(many),
        vec!["alpha".to_string(), "beta".to_string(), "gamma".to_string()]
    );
}

#[test]
fn no_commands_header_means_no_subcommands() {
    assert!(parse_sub_commands(STATS_HELP).is_empty());
    assert!(parse_sub_commands("").is_empty());
    assert!(parse_sub_commands("Usage: app\n\nOptions:\n  -h\n").is_empty());
}

#[test]
fn section_ends_at_options_or_arguments() {
    let s = "Commands:\n  a  one\nOptions:\n  b  not a command\n";
    assert_eq!(parse_sub_commands(s), vec!["a".to_string()]);
    let s2 = "Commands:\n  a  one\nArguments:\n  b  not a command\n";
    assert_eq!(parse_sub_commands(s2), vec!["a".to_string()]);
    // Deeper-indented or unindented lines carry no subcommand.
    let s3 = "Commands:\n  a  one\n   indented continuation\nplain\n  b  two\n";
    assert_eq!(parse_sub_commands(s3), vec!["a".to_string(), "b".to_string()]);
}

#[test]
fn windows_line_endings_are_tolerated() {
    let s = "A demo\r\nUsage: app\r\n\r\nCommands:\r\n  db  manage\r\nOptions:\r\n";
    assert_eq!(parse_sub_commands(s), vec!["db".to_string()]);
    let (d, _) = parse_description(s);
    assert_eq!(d, "A demo");
}

#[test]
fn help_is_excluded() {
    let subs = parse_sub_commands(DB_HELP);
    assert_eq!(subs, vec!["stats".to_string()]);
}

#[test]
fn description_splits_at_usage() {
    let (d, b) = parse_description("Does a thing.\nUsage: app thing [OPTIONS]\nmore text\n");
    assert_eq!(d, "Does a thing.");
    assert_eq!(b, "Usage: app thing [OPTIONS]\nmore text\n");
}

#[test]
fn description_empty_without_usage() {
    let s = "just some text\nwith no usage marker\n";
    let (d, b) = parse_description(s);
    assert_eq!(d, "");
    assert_eq!(b, s);
}

#[test]
fn description_is_first_trimmed_line() {
    // Only the region before `Usage:` is trimmed as a whole, so the first
    // line keeps whitespace that sits before the second line.
    let (d, _) = parse_description("\n\n  Spaced description  \nsecond line\nUsage: app\n");
    assert_eq!(d, "Spaced description  ");
    let (d2, _) = parse_description("\n  Tight description\nUsage: app\n");
    assert_eq!(d2, "Tight description");
    let (d2, b2) = parse_description("Usage: app\n");
    assert_eq!(d2, "");
    assert_eq!(b2, "Usage: app\n");
}

#[test]
fn command_name_is_file_name() {
    let c = Cmd::new("./target/debug/app".to_string());
    assert_eq!(c.command_name(), "app");
    assert_eq!(c.rendered(), "app");
    let plain = Cmd::new("app".to_string());
    assert_eq!(plain.command_name(), "app");
}

#[test]
fn rendered_form_joins_segments_with_spaces() {
    let mut c = Cmd::new("./bin/app".to_string());
    c.subcommands.push("db".to_string());
    c.subcommands.push("stats".to_string());
    assert_eq!(c.rendered(), "app db stats");
    let d = c.clone();
    assert_eq!(d.rendered(), "app db stats");
}

#[test]
fn discovery_is_preorder_depth_first() {
    let entries = drive(vec![Cmd::new("app".to_string())]);
    let order: Vec<String> = entries.iter().map(|(c, _)| c.rendered()).collect();
    assert_eq!(order, vec!["app", "app db", "app db stats"]);
    assert_eq!(entries[0].1, APP_HELP);
    assert_eq!(entries[1].1, DB_HELP);
    assert_eq!(entries[2].1, STATS_HELP);
}

#[test]
fn discovery_is_deterministic_across_runs() {
    let a = drive(vec![Cmd::new("app".to_string())]);
    let b = drive(vec![Cmd::new("app".to_string())]);
    let oa: Vec<String> = a.iter().map(|(c, _)| c.rendered()).collect();
    let ob: Vec<String> = b.iter().map(|(c, _)| c.rendered()).collect();
    assert_eq!(oa, ob);
}

#[test]
fn help_never_becomes_a_key() {
    let entries = drive(vec![Cmd::new("app".to_string())]);
    for (c, _) in &entries {
        assert_ne!(c.subcommands.last().map(|s| s.as_str()), Some("help"));
    }
}

#[test]
fn document_paths_nest_by_segment() {
    let entries = drive(vec![Cmd::new("app".to_string())]);
    let paths: Vec<String> = entries.iter().map(|(c, _)| md_path(c)).collect();
    assert_eq!(paths, vec!["app.md", "app/db.md", "app/db/stats.md"]);
}

#[test]
fn extension_is_replaced_in_final_component() {
    let c = Cmd::new("tool.exe".to_string());
    assert_eq!(md_path(&c), "tool.md");
    let mut d = Cmd::new("tool.exe".to_string());
    d.subcommands.push("db".to_string());
    assert_eq!(md_path(&d), "tool.exe/db.md");
}

#[test]
fn summary_indentation_scales_with_depth() {
    let entries = drive(vec![Cmd::new("app".to_string())]);
    let summary = render_summary(&entries, None, 0);
    let expected = "- [`app`](./app.md)\n  - [`app db`](./app/db.md)\n    - [`app db stats`](./app/db/stats.md)\n";
    assert_eq!(summary, expected);
    let doc = render_summary_doc(&entries);
    assert_eq!(doc, format!("{expected}\n"));
}

#[test]
fn summary_line_uses_base_indent_and_root() {
    let c = Cmd::new("app".to_string());
    let line = cmd_summary(Some("cli"), &c, 2);
    assert_eq!(line, "  - [`app`](./cli/app.md)\n");
    let mut child = Cmd::new("app".to_string());
    child.subcommands.push("db".to_string());
    let child_line = cmd_summary(Some("cli"), &child, 2);
    assert_eq!(child_line, "    - [`app db`](./cli/app/db.md)\n");
}

#[test]
fn root_summary_uses_relative_path() {
    let entries = drive(vec![Cmd::new("app".to_string())]);
    let summary = render_root_summary(&entries, "docs/cli", "docs", 2);
    assert!(summary.starts_with("  - [`app`](./cli/app.md)\n"), "{summary}");
}

#[test]
fn help_markdown_embeds_trimmed_body() {
    let c = Cmd::new("app".to_string());
    let rules = default_replacements();
    let out = help_markdown(&c, "Does a thing.\nUsage: app [OPTIONS]\n", &rules).unwrap();
    assert_eq!(out, "Does a thing.\n\n```bash\n$ app --help\nUsage: app [OPTIONS]\n```");
}

#[test]
fn cmd_markdown_has_title_and_path() {
    let c = Cmd::new("app".to_string());
    let rules = default_replacements();
    let (path, content) = cmd_markdown(&c, APP_HELP, &rules).unwrap();
    assert_eq!(path, "app.md");
    assert!(content.starts_with("# app\n\nA demo app\n\n```bash\n$ app --help\nUsage: app"));
}

#[test]
fn preprocessing_applies_rules_in_order() {
    let rules = vec![("o".to_string(), "0".to_string())];
    assert_eq!(preprocess_help("foo bar", &rules).unwrap(), "f00 bar");
    let two = vec![
        ("a".to_string(), "b".to_string()),
        ("b".to_string(), "c".to_string()),
    ];
    assert_eq!(preprocess_help("ab", &two).unwrap(), "cc");
    let none = default_replacements();
    assert_eq!(preprocess_help("unchanged\n", &none).unwrap(), "unchanged\n");
    let bad = vec![("(".to_string(), "x".to_string())];
    assert!(preprocess_help("text", &bad).is_none());
}

#[test]
fn merge_replaces_only_the_marked_region() {
    let content = "# Index\n\n1. [Intro](./intro.md)\n <!-- CLI_REFERENCE START -->\nstale line\n<!-- CLI_REFERENCE END -->\ntrailing\n";
    let fragment = "  - [`app`](./cli/app.md)\n";
    let merged = update_root_summary(content, fragment).unwrap();
    assert_eq!(
        merged,
        "# Index\n\n1. [Intro](./intro.md)\n <!-- CLI_REFERENCE START -->\n  - [`app`](./cli/app.md)\n<!-- CLI_REFERENCE END -->\ntrailing\n"
    );
}

#[test]
fn merge_is_idempotent() {
    let content = "head\n<!-- CLI_REFERENCE START -->\nold\n<!-- CLI_REFERENCE END -->\ntail\n";
    let fragment = "- [`app`](./app.md)\n\n\n";
    let once = update_root_summary(content, fragment).unwrap();
    let twice = update_root_summary(&once, fragment).unwrap();
    assert_eq!(once, twice);
}

#[test]
fn merge_collapses_doubled_newlines_and_trims() {
    let content = "<!-- CLI_REFERENCE START -->\n<!-- CLI_REFERENCE END -->";
    let fragment = "a\n\nb\n\n";
    let merged = update_root_summary(content, fragment).unwrap();
    assert_eq!(merged, "<!-- CLI_REFERENCE START -->\na\nb\n<!-- CLI_REFERENCE END -->");
}

#[test]
fn merge_fails_without_markers() {
    let fragment = "- [`app`](./app.md)\n";
    let r = update_root_summary("no markers at all\n", fragment);
    assert!(matches!(r, Err(Error::MissingIndexMarkers)));
    let only_start = "x\n<!-- CLI_REFERENCE START -->\ny\n";
    assert!(matches!(
        update_root_summary(only_start, fragment),
        Err(Error::MissingIndexMarkers)
    ));
    let only_end = "x\n<!-- CLI_REFERENCE END -->\ny\n";
    assert!(matches!(
        update_root_summary(only_end, fragment),
        Err(Error::MissingIndexMarkers)
    ));
}

#[test]
fn error_values_carry_their_context() {
    let e = Error::InvocationFailed {
        command: "app db".to_string(),
        stderr: "boom".to_string(),
    };
    assert_eq!(
        e,
        Error::InvocationFailed { command: "app db".to_string(), stderr: "boom".to_string() }
    );
    assert_ne!(e, Error::InvalidOutput);
    assert_ne!(Error::FilesystemError, Error::MissingIndexMarkers);
}

#[test]
fn readme_points_at_summary() {
    let r = readme_text();
    assert!(r.starts_with("# CLI Reference\n"));
    assert!(r.contains("{{#include ./SUMMARY.md}}"));
}

#[test]
fn two_seeds_keep_their_order() {
    let mut d = Discovery::new(vec![
        Cmd::new("first".to_string()),
        Cmd::new("second".to_string()),
    ]);
    while d.next_command().is_some() {
        d.record("Usage: x\nOptions:\n".to_string());
    }
    let entries = d.entries();
    let order: Vec<String> = entries.iter().map(|(c, _)| c.rendered()).collect();
    assert_eq!(order, vec!["first", "second"]);
}

#[test]
fn merge_output_when_markers_share_a_line_region() {
    // The region may span several lines; everything inside is replaced.
    let content = "a\n<!-- CLI_REFERENCE START -->\nx\ny\nz\n<!-- CLI_REFERENCE END -->\nb";
    let merged = update_root_summary(content, "new\n").unwrap();
    assert_eq!(merged, "a\n<!-- CLI_REFERENCE START -->\nnew\n<!-- CLI_REFERENCE END -->\nb");
}
