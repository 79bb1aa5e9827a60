//! The command line, and the summary of a configuration shown at startup.

use crate::config::{Config, Route};
use crate::text::{chars_of, decimal, push_decimal, push_text, string_of, texts, views};
use vstd::prelude::*;

verus! {

/// What the command line settles: where the configuration file is.
#[derive(Debug, Clone)]
pub struct Cli {
    /// Path to the configuration file.
    pub config: String,
}

/// Why a command line was not taken: what to tell the user.
#[derive(Debug, Clone, PartialEq, Eq)]
pub struct CliError {
    pub message: String,
}

/// What a command line, the program's name first, says of the configuration
/// file: nothing at all where the command line is refused; else the path that
/// it names with `-c` or `--config`, if it names one.
pub uninterp spec fn command_line_config(args: Seq<Seq<char>>) -> Option<Option<Seq<char>>>;

/// The texts of the arguments of a command line.
pub open spec fn arg_texts(args: Seq<&str>) -> Seq<Seq<char>> {
    Seq::new(args.len(), |i: int| args[i]@)
}

/// What a reading of the command line says of the configuration file, the
/// complaint about a refused command line left aside.
pub open spec fn reading_view(reading: Result<Option<String>, String>) -> Option<
    Option<Seq<char>>,
> {
    match reading {
        Ok(Some(path)) => Some(Some(path@)),
        Ok(None) => Some(None),
        Err(_) => None,
    }
}

/// What reading a command line gives. Where the command line is refused, so
/// is the whole; where it names a path, that path is the configuration file;
/// where it names none, the fallback decides.
pub open spec fn settles(
    reading: Option<Option<Seq<char>>>,
    fallback: Result<String, String>,
    r: Result<Cli, CliError>,
) -> bool {
    match reading {
        None => r is Err,
        Some(Some(path)) => r is Ok && r->Ok_0.config@ == path,
        Some(None) => match fallback {
            Ok(path) => r is Ok && r->Ok_0.config == path,
            Err(message) => r is Err && r->Err_0.message == message,
        },
    }
}

/// `clap::Command::try_get_matches_from`, for a command with the one option
/// `-c` or `--config`, which takes a value and has no default: whether the
/// command line is taken, and the value of the option where it is given. The
/// command reads nothing but its arguments.
#[verifier::external_body]
fn command_line_path(args: &Vec<&str>) -> (reading: Result<Option<String>, String>)
    ensures
        reading_view(reading) == command_line_config(arg_texts(args@)),
{
    let config = clap::Arg::new("config").short('c').long("config");
    match clap::Command::new("statiker").arg(config).try_get_matches_from(args) {
        Ok(found) => Ok(found.get_one::<String>("config").cloned()),
        Err(e) => Err(e.to_string()),
    }
}

/// `clap::Command::try_get_matches_from`, for the same command with the
/// environment behind it: where the command line names no path, the
/// environment variable `CONFIG` decides, and `statiker.yaml` stands in where
/// that is not set. The outcome depends on the environment, so nothing is
/// promised of it.
#[verifier::external_body]
fn parse_arguments(args: &Vec<&str>) -> (parsed: Result<String, String>) {
    let config = clap::Arg::new("config")
        .short('c')
        .long("config")
        .env("CONFIG")
        .default_value("statiker.yaml");
    match clap::Command::new("statiker").arg(config).try_get_matches_from(args) {
        Ok(found) => Ok(found.get_one::<String>("config").cloned().unwrap_or_default()),
        Err(e) => Err(e.to_string()),
    }
}

impl Cli {
    /// The command line that names no configuration file.
    pub fn with_default_config() -> (cli: Cli)
        ensures
            cli.config@ == "statiker.yaml"@,
    {
        Cli { config: "statiker.yaml".to_owned() }
    }

    /// What a parsed command line settles: the path that was found, or the
    /// complaint about the command line.
    pub fn from_parsed(parsed: Result<String, String>) -> (r: Result<Cli, CliError>)
        ensures
            match parsed {
                Ok(path) => r is Ok && r->Ok_0.config == path,
                Err(message) => r is Err && r->Err_0.message == message,
            },
    {
        match parsed {
            Ok(path) => Ok(Cli { config: path }),
            Err(message) => Err(CliError { message }),
        }
    }

    /// What a reading of the command line settles, given what the environment
    /// would have the configuration file be: a refused command line is
    /// refused with its complaint, a path that the command line names is
    /// taken, and where it names none the fallback decides.
    pub fn from_reading(
        reading: Result<Option<String>, String>,
        fallback: Result<String, String>,
    ) -> (r: Result<Cli, CliError>)
        ensures
            settles(reading_view(reading), fallback, r),
            reading matches Err(message) ==> r is Err && r->Err_0.message == message,
    {
        match reading {
            Err(message) => Err(CliError { message }),
            Ok(Some(path)) => Ok(Cli { config: path }),
            Ok(None) => Cli::from_parsed(fallback),
        }
    }

    /// Reads a command line, the program's name first. A command line that is
    /// refused gives an error; one that names a path with `-c` or `--config`
    /// gives that path. Where it names none, the path comes from the
    /// environment, and `statiker.yaml` stands in where that has none.
    pub fn parse_from(args: Vec<&str>) -> (r: Result<Cli, CliError>)
        ensures
            command_line_config(arg_texts(args@)) is None ==> r is Err,
            forall|path: Seq<char>|
                command_line_config(arg_texts(args@)) == Some(Some(path)) ==> r is Ok
                    && r->Ok_0.config@ == path,
    {
        let reading = command_line_path(&args);
        let fallback = parse_arguments(&args);
        Cli::from_reading(reading, fallback)
    }
}

/// `true` or `false`, written out.
pub open spec fn bool_text(b: bool) -> Seq<char> {
    if b {
        "true"@
    } else {
        "false"@
    }
}

/// One line if `shown` holds, none otherwise.
pub open spec fn line_if(shown: bool, line: Seq<char>) -> Seq<Seq<char>> {
    if shown {
        seq![line]
    } else {
        Seq::<Seq<char>>::empty()
    }
}

/// The lines of one declared route: one for what it serves, one for its
/// upstream.
pub open spec fn route_lines(route: Route) -> Seq<Seq<char>> {
    line_if(
        route.serve is Some,
        "  - "@ + route.path@ + " -> serve: "@ + route.serve->0@,
    ) + line_if(route.proxy is Some, "  - "@ + route.path@ + " -> proxy"@)
}

/// The lines of the declared routes, in order.
pub open spec fn routes_lines(routes: Seq<Route>) -> Seq<Seq<char>>
    decreases routes.len(),
{
    if routes.len() == 0 {
        Seq::<Seq<char>>::empty()
    } else {
        routes_lines(routes.drop_last()) + route_lines(routes.last())
    }
}

/// The lines on routing: the count of the declared routes and their lines, or
/// a word on the default where none is declared.
pub open spec fn routing_lines(routes: Seq<Route>) -> Seq<Seq<char>> {
    if routes.len() == 0 {
        seq!["Routes: default (serve static at /)"@]
    } else {
        seq!["Routes: "@ + decimal(routes.len())] + routes_lines(routes)
    }
}

/// The names of the compression algorithms that are on.
pub open spec fn compression_names(gzip: bool, br: bool) -> Seq<char> {
    if gzip && br {
        "gzip, brotli"@
    } else if gzip {
        "gzip"@
    } else if br {
        "brotli"@
    } else {
        Seq::<char>::empty()
    }
}

/// The first lines of the summary: where the server listens and what it
/// serves.
pub open spec fn server_lines(cfg: Config) -> Seq<Seq<char>> {
    seq![
        "=== Configuration ==="@,
        "Server: "@ + cfg.server.host@ + ":"@ + decimal(cfg.server.port as nat),
        "Root: "@ + cfg.server.root@,
        "Index: "@ + cfg.server.index@,
        "Auto-index: "@ + bool_text(cfg.server.auto_index),
    ]
}

/// The lines on what is switched on, one for each feature that is.
pub open spec fn feature_lines(cfg: Config) -> Seq<Seq<char>> {
    line_if(cfg.spa.enabled, "SPA: enabled (fallback: "@ + cfg.spa.fallback@ + ")"@) + line_if(
        cfg.compression.enable,
        "Compression: enabled ("@ + compression_names(cfg.compression.gzip, cfg.compression.br)
            + ")"@,
    ) + line_if(cfg.security.cors.enabled, "CORS: enabled"@) + line_if(
        cfg.security.rate_limit.enabled,
        "Rate limit: "@ + decimal(cfg.security.rate_limit.requests_per_min as nat) + " req/min"@,
    ) + line_if(
        cfg.security.headers@.len() > 0,
        "Security headers: "@ + decimal(cfg.security.headers@.len()) + " configured"@,
    ) + line_if(
        cfg.assets.cache.enabled,
        "Asset cache: enabled (max-age: "@ + decimal(cfg.assets.cache.max_age.secs as nat) + "s)"@,
    )
}

/// The last lines of the summary.
pub open spec fn closing_lines(cfg: Config) -> Seq<Seq<char>> {
    seq!["Log level: "@ + cfg.obs.level@, "===================="@]
}

/// The lines of the summary of a configuration.
pub open spec fn summary_lines(cfg: Config) -> Seq<Seq<char>> {
    server_lines(cfg) + line_if(cfg.tls.enabled, "TLS: enabled"@) + routing_lines(cfg.routing@)
        + feature_lines(cfg) + closing_lines(cfg)
}

fn push_line_if(lines: &mut Vec<Vec<char>>, shown: bool, line: Vec<char>)
    ensures
        views(final(lines)@) == views(old(lines)@) + line_if(shown, line@),
{
    if shown {
        lines.push(line);
    }
    assert(views(lines@) =~= views(old(lines)@) + line_if(shown, line@));
}

fn push_route_lines(lines: &mut Vec<Vec<char>>, route: &Route)
    ensures
        views(final(lines)@) == views(old(lines)@) + route_lines(*route),
{
    match &route.serve {
        Some(serve) => {
            let mut line = chars_of("  - ");
            push_text(&mut line, route.path.as_str());
            push_text(&mut line, " -> serve: ");
            push_text(&mut line, serve.as_str());
            push_line_if(lines, true, line);
        },
        None => {},
    }
    let ghost mid = views(lines@);
    let mut line = chars_of("  - ");
    push_text(&mut line, route.path.as_str());
    push_text(&mut line, " -> proxy");
    push_line_if(lines, route.proxy.is_some(), line);
    assert(views(lines@) =~= views(old(lines)@) + route_lines(*route));
}

fn push_routing_lines(lines: &mut Vec<Vec<char>>, routes: &Vec<Route>)
    ensures
        views(final(lines)@) == views(old(lines)@) + routing_lines(routes@),
{
    if routes.len() == 0 {
        push_line_if(lines, true, chars_of("Routes: default (serve static at /)"));
        return ;
    }
    let mut head = chars_of("Routes: ");
    push_decimal(&mut head, routes.len() as u64);
    push_line_if(lines, true, head);
    let ghost start = views(lines@);
    let mut i: usize = 0;
    assert(routes@.take(0) =~= Seq::<Route>::empty());
    assert(views(lines@) =~= start + routes_lines(routes@.take(0)));
    while i < routes.len()
        invariant
            i <= routes.len(),
            views(lines@) == start + routes_lines(routes@.take(i as int)),
        decreases routes.len() - i,
    {
        proof {
            assert(routes@.take(i + 1).drop_last() =~= routes@.take(i as int));
            assert(routes@.take(i + 1).last() == routes@[i as int]);
        }
        push_route_lines(lines, &routes[i]);
        assert(views(lines@) =~= start + routes_lines(routes@.take(i + 1)));
        i += 1;
    }
    assert(routes@.take(routes.len() as int) =~= routes@);
    assert(views(lines@) =~= views(old(lines)@) + routing_lines(routes@));
}

fn compression_line(gzip: bool, br: bool) -> (line: Vec<char>)
    ensures
        line@ == "Compression: enabled ("@ + compression_names(gzip, br) + ")"@,
{
    let mut line = chars_of("Compression: enabled (");
    let ghost head = line@;
    if gzip && br {
        push_text(&mut line, "gzip, brotli");
    } else if gzip {
        push_text(&mut line, "gzip");
    } else if br {
        push_text(&mut line, "brotli");
    }
    assert(line@ =~= head + compression_names(gzip, br));
    push_text(&mut line, ")");
    line
}

fn push_server_lines(out: &mut Vec<Vec<char>>, cfg: &Config)
    ensures
        views(final(out)@) == views(old(out)@) + server_lines(*cfg),
{
    out.push(chars_of("=== Configuration ==="));
    let mut line = chars_of("Server: ");
    push_text(&mut line, cfg.server.host.as_str());
    push_text(&mut line, ":");
    push_decimal(&mut line, cfg.server.port as u64);
    out.push(line);
    let mut line = chars_of("Root: ");
    push_text(&mut line, cfg.server.root.as_str());
    out.push(line);
    let mut line = chars_of("Index: ");
    push_text(&mut line, cfg.server.index.as_str());
    out.push(line);
    let mut line = chars_of("Auto-index: ");
    if cfg.server.auto_index {
        push_text(&mut line, "true");
    } else {
        push_text(&mut line, "false");
    }
    out.push(line);
    assert(views(out@) =~= views(old(out)@) + server_lines(*cfg));
}

proof fn lemma_lines_regroup(a: Seq<Seq<char>>, b: Seq<Seq<char>>, c: Seq<Seq<char>>)
    ensures
        (a + b) + c == a + (b + c),
{
    assert((a + b) + c =~= a + (b + c));
}

fn push_feature_lines(out: &mut Vec<Vec<char>>, cfg: &Config)
    ensures
        views(final(out)@) == views(old(out)@) + feature_lines(*cfg),
{
    let ghost start = views(out@);
    let ghost spa = line_if(cfg.spa.enabled, "SPA: enabled (fallback: "@ + cfg.spa.fallback@ + ")"@);
    let ghost compression = line_if(
        cfg.compression.enable,
        "Compression: enabled ("@ + compression_names(cfg.compression.gzip, cfg.compression.br)
            + ")"@,
    );
    let ghost cors = line_if(cfg.security.cors.enabled, "CORS: enabled"@);
    let ghost rate = line_if(
        cfg.security.rate_limit.enabled,
        "Rate limit: "@ + decimal(cfg.security.rate_limit.requests_per_min as nat) + " req/min"@,
    );
    let ghost headers = line_if(
        cfg.security.headers@.len() > 0,
        "Security headers: "@ + decimal(cfg.security.headers@.len()) + " configured"@,
    );
    let ghost cache = line_if(
        cfg.assets.cache.enabled,
        "Asset cache: enabled (max-age: "@ + decimal(cfg.assets.cache.max_age.secs as nat) + "s)"@,
    );
    let mut line = chars_of("SPA: enabled (fallback: ");
    push_text(&mut line, cfg.spa.fallback.as_str());
    push_text(&mut line, ")");
    push_line_if(out, cfg.spa.enabled, line);
    assert(views(out@) == start + spa);
    push_line_if(
        out,
        cfg.compression.enable,
        compression_line(cfg.compression.gzip, cfg.compression.br),
    );
    proof {
        lemma_lines_regroup(start, spa, compression);
    }
    assert(views(out@) == start + (spa + compression));
    push_line_if(out, cfg.security.cors.enabled, chars_of("CORS: enabled"));
    proof {
        lemma_lines_regroup(start, spa + compression, cors);
    }
    assert(views(out@) == start + (spa + compression + cors));
    let mut line = chars_of("Rate limit: ");
    push_decimal(&mut line, cfg.security.rate_limit.requests_per_min as u64);
    push_text(&mut line, " req/min");
    push_line_if(out, cfg.security.rate_limit.enabled, line);
    proof {
        lemma_lines_regroup(start, spa + compression + cors, rate);
    }
    assert(views(out@) == start + (spa + compression + cors + rate));
    let mut line = chars_of("Security headers: ");
    push_decimal(&mut line, cfg.security.headers.len() as u64);
    push_text(&mut line, " configured");
    push_line_if(out, cfg.security.headers.len() > 0, line);
    proof {
        lemma_lines_regroup(start, spa + compression + cors + rate, headers);
    }
    assert(views(out@) == start + (spa + compression + cors + rate + headers));
    let mut line = chars_of("Asset cache: enabled (max-age: ");
    push_decimal(&mut line, cfg.assets.cache.max_age.as_secs());
    push_text(&mut line, "s)");
    push_line_if(out, cfg.assets.cache.enabled, line);
    proof {
        lemma_lines_regroup(start, spa + compression + cors + rate + headers, cache);
    }
}

fn push_closing_lines(out: &mut Vec<Vec<char>>, cfg: &Config)
    ensures
        views(final(out)@) == views(old(out)@) + closing_lines(*cfg),
{
    let mut line = chars_of("Log level: ");
    push_text(&mut line, cfg.obs.level.as_str());
    out.push(line);
    out.push(chars_of("===================="));
    assert(views(out@) =~= views(old(out)@) + closing_lines(*cfg));
}

/// The summary of a configuration, line by line, as it is shown at startup.
pub fn config_summary(cfg: &Config) -> (lines: Vec<String>)
    ensures
        texts(lines@) == summary_lines(*cfg),
{
    let mut out: Vec<Vec<char>> = Vec::new();
    let ghost tls = line_if(cfg.tls.enabled, "TLS: enabled"@);
    assert(views(out@) =~= Seq::<Seq<char>>::empty());
    push_server_lines(&mut out, cfg);
    assert(views(out@) =~= server_lines(*cfg));
    push_line_if(&mut out, cfg.tls.enabled, chars_of("TLS: enabled"));
    push_routing_lines(&mut out, &cfg.routing);
    push_feature_lines(&mut out, cfg);
    push_closing_lines(&mut out, cfg);
    assert(views(out@) == server_lines(*cfg) + tls + routing_lines(cfg.routing@) + feature_lines(
        *cfg,
    ) + closing_lines(*cfg));
    let mut lines: Vec<String> = Vec::new();
    let mut i: usize = 0;
    while i < out.len()
        invariant
            i <= out.len(),
            lines@.len() == i,
            forall|k: int| 0 <= k < i ==> lines@[k]@ == out@[k]@,
        decreases out.len() - i,
    {
        lines.push(string_of(out[i].as_slice()));
        i += 1;
    }
    assert(texts(lines@) =~= views(out@));
    lines
}

} // verus!
