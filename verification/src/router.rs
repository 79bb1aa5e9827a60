//! The route table, and the plans for compression and cross-origin requests.

use crate::config::{Config, Cors, Proxy, Route, TimeSpan};
use crate::headers::{header_value_ok, method_ok, pair_views, valid_header_value, valid_method};
use crate::paths::{
    confine_outcome, confine_resolved, join_path, path_join, resolve_outcome,
    resolve_path_within_root, ResolveError,
};
use crate::proxy::{
    effective_timeout, parsed_headers, proxy_route_path, proxy_route_text, ProxyState,
};
use crate::text::{
    chars_of, opt_str, push_text, same_chars, slice_chars, spells, stands_at, string_of, texts,
    trim_end, trim_end_chars, trim_start, trim_start_chars,
};
use vstd::prelude::*;

verus! {

/// An upstream as a route sees it: where to forward to, how long to wait, and
/// which headers to set.
pub struct Upstream {
    pub target: Seq<char>,
    pub timeout: TimeSpan,
    pub add_headers: Seq<(Seq<char>, Seq<char>)>,
}

/// A mounted route as the table sees it: the pattern it answers to, and its
/// upstream if it forwards; without one it serves static content.
pub struct MountView {
    pub pattern: Seq<char>,
    pub upstream: Option<Upstream>,
}

/// What answers the requests of a mounted route.
#[derive(Debug, Clone)]
pub enum Handler {
    /// Static content below the confinement root.
    Static,
    /// The upstream of the route.
    Proxy(ProxyState),
}

/// A pattern of request paths together with what answers them. A pattern that
/// ends in `*tail` takes every path that starts with what stands before it
/// and goes on; any other pattern takes exactly the path it spells.
#[derive(Debug, Clone)]
pub struct Mount {
    pub pattern: String,
    pub handler: Handler,
}

impl View for Mount {
    type V = MountView;

    open spec fn view(&self) -> MountView {
        MountView {
            pattern: self.pattern@,
            upstream: match self.handler {
                Handler::Static => None,
                Handler::Proxy(state) => Some(
                    Upstream {
                        target: state.target@,
                        timeout: state.timeout,
                        add_headers: pair_views(state.add_headers@),
                    },
                ),
            },
        }
    }
}

/// The mounts that a sequence of mounts stands for.
pub open spec fn mount_views(mounts: Seq<Mount>) -> Seq<MountView> {
    Seq::new(mounts.len(), |i: int| mounts[i]@)
}

/// The file served for paths that no route takes, and whether the configured
/// fallback had to be given up for the default.
#[derive(Debug, Clone)]
pub struct SpaFallback {
    pub file: String,
    pub replaced: bool,
}

/// The route table: the mounts in the order of their declaration, the paths
/// of the routes that were declared both static and proxied, and the fallback
/// where single-page-app mode is on.
#[derive(Debug, Clone)]
pub struct RoutePlan {
    pub mounts: Vec<Mount>,
    pub conflicts: Vec<String>,
    pub fallback: Option<SpaFallback>,
}

/// The mounts of a static route. The root route takes the root itself and
/// every path below it; any other route takes the paths below its own.
pub open spec fn static_mounts(path: Seq<char>) -> Seq<MountView> {
    if path == "/"@ {
        seq![
            MountView { pattern: "/"@, upstream: None },
            MountView { pattern: "/*tail"@, upstream: None },
        ]
    } else {
        seq![MountView { pattern: trim_end(path, '/') + "/*tail"@, upstream: None }]
    }
}

/// The upstream that a proxy declaration stands for.
pub open spec fn upstream_of(p: Proxy) -> Upstream {
    Upstream {
        target: trim_end(p.url@, '/'),
        timeout: effective_timeout(p.timeout),
        add_headers: parsed_headers(pair_views(p.add_headers@)),
    }
}

/// Whether a route is declared static.
pub open spec fn is_static(route: Route) -> bool {
    route.serve is Some && route.serve->0@ == "static"@
}

/// The mounts of one declared route. A route declared static is static, even
/// if it names an upstream too; any other route that names an upstream is
/// proxied; a route that is neither mounts nothing.
pub open spec fn route_mounts(route: Route) -> Seq<MountView> {
    if is_static(route) {
        static_mounts(route.path@)
    } else if route.proxy is Some {
        seq![
            MountView {
                pattern: proxy_route_text(route.path@),
                upstream: Some(upstream_of(route.proxy->0)),
            },
        ]
    } else {
        Seq::<MountView>::empty()
    }
}

/// The mounts of the declared routes, in the order of their declaration.
pub open spec fn declared_mounts(routes: Seq<Route>) -> Seq<MountView>
    decreases routes.len(),
{
    if routes.len() == 0 {
        Seq::<MountView>::empty()
    } else {
        declared_mounts(routes.drop_last()) + route_mounts(routes.last())
    }
}

/// The mounts of the table: those of the declared routes, or the root static
/// route where these mount nothing.
pub open spec fn planned_mounts(routes: Seq<Route>) -> Seq<MountView> {
    if declared_mounts(routes).len() == 0 {
        static_mounts("/"@)
    } else {
        declared_mounts(routes)
    }
}

/// The paths of the routes that are declared static and name an upstream too.
pub open spec fn conflicting_paths(routes: Seq<Route>) -> Seq<Seq<char>>
    decreases routes.len(),
{
    if routes.len() == 0 {
        Seq::<Seq<char>>::empty()
    } else {
        let head = conflicting_paths(routes.drop_last());
        if is_static(routes.last()) && routes.last().proxy is Some {
            head.push(routes.last().path@)
        } else {
            head
        }
    }
}

/// The fallback file and whether the default took the place of the configured
/// one: the configured fallback, without the `/` at its start, resolved below
/// the root, or `index.html` below the root where it does not resolve.
pub open spec fn fallback_of(root: Seq<char>, fallback: Seq<char>) -> (Seq<char>, bool) {
    match resolve_outcome(root, trim_start(fallback, '/')) {
        Ok(file) => (file, false),
        Err(_) => (join_path(root, "index.html"@), true),
    }
}

/// Appends the mounts of a static route at `path`.
pub fn mount_static_route(mounts: &mut Vec<Mount>, path: &str)
    ensures
        mount_views(final(mounts)@) == mount_views(old(mounts)@) + static_mounts(path@),
{
    let chars = chars_of(path);
    if spells(chars.as_slice(), "/") {
        mounts.push(Mount { pattern: "/".to_owned(), handler: Handler::Static });
        mounts.push(Mount { pattern: "/*tail".to_owned(), handler: Handler::Static });
        assert(mount_views(mounts@) =~= mount_views(old(mounts)@) + static_mounts(path@));
    } else {
        let mut pattern = trim_end_chars(chars.as_slice(), '/');
        push_text(&mut pattern, "/*tail");
        mounts.push(Mount { pattern: string_of(pattern.as_slice()), handler: Handler::Static });
        assert(mount_views(mounts@) =~= mount_views(old(mounts)@) + static_mounts(path@));
    }
}

/// The mount of a proxy route declared at `base`: its pattern takes the rest
/// of the path behind `base`, and its handler forwards to the upstream.
pub fn make_proxy_route(base: &str, p: Proxy) -> (mount: Mount)
    ensures
        mount@ == (MountView {
            pattern: proxy_route_text(base@),
            upstream: Some(upstream_of(p)),
        }),
{
    let state = ProxyState::new(p);
    let pattern = proxy_route_path(base);
    Mount { pattern, handler: Handler::Proxy(state) }
}

fn copy_pairs(list: &Vec<(String, String)>) -> (out: Vec<(String, String)>)
    ensures
        pair_views(out@) == pair_views(list@),
{
    let mut out: Vec<(String, String)> = Vec::new();
    let mut i: usize = 0;
    while i < list.len()
        invariant
            i <= list.len(),
            out@.len() == i,
            forall|k: int| 0 <= k < i ==> out@[k].0@ == list@[k].0@ && out@[k].1@ == list@[k].1@,
        decreases list.len() - i,
    {
        out.push((list[i].0.clone(), list[i].1.clone()));
        i += 1;
    }
    assert(pair_views(out@) =~= pair_views(list@));
    out
}

fn mount_route(mounts: &mut Vec<Mount>, conflicts: &mut Vec<String>, route: &Route)
    ensures
        mount_views(final(mounts)@) == mount_views(old(mounts)@) + route_mounts(*route),
        texts(final(conflicts)@) == if is_static(*route) && route.proxy is Some {
            texts(old(conflicts)@).push(route.path@)
        } else {
            texts(old(conflicts)@)
        },
{
    let declared_static = match &route.serve {
        Some(s) => spells(chars_of(s.as_str()).as_slice(), "static"),
        None => false,
    };
    if declared_static {
        if route.proxy.is_some() {
            conflicts.push(route.path.clone());
            assert(texts(conflicts@) =~= texts(old(conflicts)@).push(route.path@));
        }
        mount_static_route(mounts, route.path.as_str());
    } else {
        match &route.proxy {
            Some(p) => {
                let copy = Proxy {
                    url: p.url.clone(),
                    timeout: p.timeout,
                    add_headers: copy_pairs(&p.add_headers),
                };
                assert(upstream_of(copy) == upstream_of(*p));
                mounts.push(make_proxy_route(route.path.as_str(), copy));
                assert(mount_views(mounts@) =~= mount_views(old(mounts)@) + route_mounts(*route));
            },
            None => {
                assert(mount_views(mounts@) =~= mount_views(old(mounts)@) + route_mounts(*route));
            },
        }
    }
}

/// The fallback file for single-page-app mode, as far as the texts of the
/// root and of the configured fallback decide it.
pub fn spa_fallback(root: &str, fallback: &str) -> (f: SpaFallback)
    ensures
        (f.file@, f.replaced) == fallback_of(root@, fallback@),
{
    let chars = chars_of(fallback);
    let rel = trim_start_chars(chars.as_slice(), '/');
    let rel_text = string_of(rel.as_slice());
    match resolve_path_within_root(root, rel_text.as_str()) {
        Ok(file) => SpaFallback { file, replaced: false },
        Err(_) => SpaFallback { file: path_join(root, "index.html"), replaced: true },
    }
}

/// Holds a fallback file to the real locations that the filesystem reported
/// for it and for the root: a file whose real location lies outside the
/// root's gives way to `index.html` below the root.
pub fn confirm_fallback(
    root: &str,
    fallback: SpaFallback,
    root_real: Option<&str>,
    file_real: Option<&str>,
) -> (f: SpaFallback)
    ensures
        match confine_outcome(fallback.file@, opt_str(root_real), opt_str(file_real)) {
            Ok(file) => f.file@ == file && f.replaced == fallback.replaced,
            Err(_) => f.file@ == join_path(root@, "index.html"@) && f.replaced,
        },
{
    let replaced = fallback.replaced;
    match confine_resolved(fallback.file, root_real, file_real) {
        Ok(file) => SpaFallback { file, replaced },
        Err(_) => SpaFallback { file: path_join(root, "index.html"), replaced: true },
    }
}

/// Builds the route table from the configuration: the declared routes in
/// order, each either static or proxied and never both; the root static route
/// where none is declared; and the fallback file where single-page-app mode
/// is on.
pub fn build_router(cfg: &Config) -> (plan: RoutePlan)
    ensures
        mount_views(plan.mounts@) == planned_mounts(cfg.routing@),
        texts(plan.conflicts@) == conflicting_paths(cfg.routing@),
        plan.fallback is Some <==> cfg.spa.enabled,
        plan.fallback is Some ==> (plan.fallback->0.file@, plan.fallback->0.replaced)
            == fallback_of(cfg.server.root@, cfg.spa.fallback@),
{
    let mut mounts: Vec<Mount> = Vec::new();
    let mut conflicts: Vec<String> = Vec::new();
    let mut i: usize = 0;
    assert(cfg.routing@.take(0) =~= Seq::<Route>::empty());
    assert(mount_views(mounts@) =~= declared_mounts(cfg.routing@.take(0)));
    assert(texts(conflicts@) =~= conflicting_paths(cfg.routing@.take(0)));
    while i < cfg.routing.len()
        invariant
            i <= cfg.routing.len(),
            mount_views(mounts@) == declared_mounts(cfg.routing@.take(i as int)),
            texts(conflicts@) == conflicting_paths(cfg.routing@.take(i as int)),
        decreases cfg.routing.len() - i,
    {
        proof {
            assert(cfg.routing@.take(i + 1).drop_last() =~= cfg.routing@.take(i as int));
            assert(cfg.routing@.take(i + 1).last() == cfg.routing@[i as int]);
        }
        mount_route(&mut mounts, &mut conflicts, &cfg.routing[i]);
        i += 1;
    }
    assert(cfg.routing@.take(cfg.routing.len() as int) =~= cfg.routing@);
    if mounts.len() == 0 {
        mount_static_route(&mut mounts, "/");
        assert(mount_views(mounts@) =~= static_mounts("/"@));
    }
    let fallback = if cfg.spa.enabled {
        Some(spa_fallback(cfg.server.root.as_str(), cfg.spa.fallback.as_str()))
    } else {
        None
    };
    RoutePlan { mounts, conflicts, fallback }
}

/// Whether a pattern ends in the wildcard `*tail`.
pub open spec fn is_wildcard(pattern: Seq<char>) -> bool {
    pattern.len() >= 5 && pattern.skip(pattern.len() - 5) == "*tail"@
}

/// The part of a pattern that a path has to spell out: what stands before the
/// wildcard, or all of a pattern without one.
pub open spec fn literal_part(pattern: Seq<char>) -> Seq<char> {
    if is_wildcard(pattern) {
        pattern.take(pattern.len() - 5)
    } else {
        pattern
    }
}

/// What a pattern leaves of a path that it takes: a pattern with a wildcard
/// takes the paths that go on after its literal part, and leaves what they go
/// on with; any other pattern takes the one path it spells, and leaves
/// nothing of it.
pub open spec fn taken_tail(pattern: Seq<char>, path: Seq<char>) -> Option<Seq<char>> {
    let literal = literal_part(pattern);
    if is_wildcard(pattern) {
        if literal.is_prefix_of(path) && literal.len() < path.len() {
            Some(path.skip(literal.len() as int))
        } else {
            None
        }
    } else if pattern == path {
        Some(Seq::<char>::empty())
    } else {
        None
    }
}

/// Whether mount `i` is the one that answers `path`: it takes the path, no
/// mount that takes the path has a longer literal part, and none with a
/// literal part as long was declared before it.
pub open spec fn is_choice(mounts: Seq<MountView>, path: Seq<char>, i: int) -> bool {
    &&& 0 <= i < mounts.len()
    &&& taken_tail(mounts[i].pattern, path) is Some
    &&& forall|j: int|
        0 <= j < mounts.len() && taken_tail(#[trigger] mounts[j].pattern, path) is Some ==> {
            let mine = literal_part(mounts[i].pattern).len();
            let other = literal_part(mounts[j].pattern).len();
            other < mine || (other == mine && i <= j)
        }
}

fn pattern_takes(pattern: &[char], path: &[char]) -> (r: Option<(usize, Vec<char>)>)
    ensures
        match r {
            Some((len, tail)) => taken_tail(pattern@, path@) == Some(tail@) && len == literal_part(
                pattern@,
            ).len(),
            None => taken_tail(pattern@, path@) is None,
        },
{
    let n = pattern.len();
    let wild = n >= 5 && {
        let end = slice_chars(pattern, n - 5, n);
        assert(end@ =~= pattern@.skip(n - 5));
        spells(end.as_slice(), "*tail")
    };
    if wild {
        let literal = slice_chars(pattern, 0, n - 5);
        assert(literal@ =~= pattern@.take(n - 5));
        assert(path@.skip(0) =~= path@);
        if literal.len() < path.len() && stands_at(path, 0, literal.as_slice()) {
            Some((n - 5, slice_chars(path, n - 5, path.len())))
        } else {
            None
        }
    } else if same_chars(pattern, path) {
        Some((n, Vec::new()))
    } else {
        None
    }
}

/// Finds the mount that answers a request path, and what its pattern leaves
/// of the path: among the mounts that take the path, the one with the longest
/// literal part, and of several such the one declared first. No mount answers
/// a path that none takes.
pub fn dispatch(mounts: &Vec<Mount>, path: &str) -> (r: Option<(usize, String)>)
    ensures
        match r {
            Some((i, tail)) => is_choice(mount_views(mounts@), path@, i as int) && taken_tail(
                mounts@[i as int].pattern@,
                path@,
            ) == Some(tail@),
            None => forall|j: int|
                0 <= j < mounts@.len() ==> taken_tail(
                    #[trigger] mount_views(mounts@)[j].pattern,
                    path@,
                ) is None,
        },
{
    let p = chars_of(path);
    let mut best: Option<(usize, usize, Vec<char>)> = None;
    let mut k: usize = 0;
    while k < mounts.len()
        invariant
            k <= mounts.len(),
            p@ == path@,
            match best {
                Some((i, len, tail)) => {
                    &&& i < k
                    &&& len == literal_part(mounts@[i as int].pattern@).len()
                    &&& taken_tail(mounts@[i as int].pattern@, path@) == Some(tail@)
                    &&& forall|j: int|
                        0 <= j < k && taken_tail(#[trigger] mounts@[j].pattern@, path@) is Some ==> {
                            let other = literal_part(mounts@[j].pattern@).len();
                            other < len || (other == len && i <= j)
                        }
                },
                None => forall|j: int|
                    0 <= j < k ==> taken_tail(#[trigger] mounts@[j].pattern@, path@) is None,
            },
        decreases mounts.len() - k,
    {
        let pattern = chars_of(mounts[k].pattern.as_str());
        match pattern_takes(pattern.as_slice(), p.as_slice()) {
            Some((len, tail)) => {
                let better = match &best {
                    Some((_, best_len, _)) => *best_len < len,
                    None => true,
                };
                if better {
                    best = Some((k, len, tail));
                }
            },
            None => {},
        }
        k += 1;
    }
    match best {
        Some((i, _, tail)) => {
            assert(is_choice(mount_views(mounts@), path@, i as int));
            Some((i, string_of(tail.as_slice())))
        },
        None => None,
    }
}

/// The root static route answers the root itself and every path below it.
pub proof fn lemma_root_route_takes_every_path(path: Seq<char>)
    requires
        path.len() > 0,
        path[0] == '/',
    ensures
        path == "/"@ ==> taken_tail(static_mounts("/"@)[0].pattern, path) == Some(
            Seq::<char>::empty(),
        ),
        path != "/"@ ==> taken_tail(static_mounts("/"@)[1].pattern, path) == Some(path.skip(1)),
{
    reveal_strlit("/");
    reveal_strlit("/*tail");
    reveal_strlit("*tail");
    let wild = "/*tail"@;
    assert(wild.skip(1) =~= "*tail"@);
    assert(wild.take(1) =~= "/"@);
    assert(!is_wildcard("/"@));
    if path != "/"@ {
        assert(path.len() > 1) by {
            if path.len() == 1 {
                assert(path =~= "/"@);
            }
        }
        assert("/"@ =~= path.subrange(0, 1));
    }
}

/// A static route below the root answers the paths below its own path, and
/// no others.
pub proof fn lemma_static_route_takes_its_subtree(route: Seq<char>, path: Seq<char>)
    requires
        route != "/"@,
    ensures
        static_mounts(route).len() == 1,
        taken_tail(static_mounts(route)[0].pattern, path) is Some <==> (trim_end(route, '/').push(
            '/',
        )).is_prefix_of(path) && path.len() > trim_end(route, '/').len() + 1,
        taken_tail(static_mounts(route)[0].pattern, path) is Some ==> taken_tail(
            static_mounts(route)[0].pattern,
            path,
        ) == Some(path.skip(trim_end(route, '/').len() as int + 1)),
{
    reveal_strlit("/*tail");
    reveal_strlit("*tail");
    let base = trim_end(route, '/');
    let pattern = base + "/*tail"@;
    assert(pattern.skip(pattern.len() - 5) =~= "*tail"@);
    assert(pattern.take(pattern.len() - 5) =~= base.push('/'));
}

/// Which compression algorithms to offer.
#[derive(Clone, Copy, Debug, PartialEq, Eq, Structural)]
pub struct CompressionPlan {
    pub gzip: bool,
    pub br: bool,
}

/// Whether, and with which algorithms, answers are compressed: compression
/// has to be on, with at least one algorithm.
pub fn build_compression(cfg: &Config) -> (plan: Option<CompressionPlan>)
    ensures
        plan == if cfg.compression.enable && (cfg.compression.gzip || cfg.compression.br) {
            Some(CompressionPlan { gzip: cfg.compression.gzip, br: cfg.compression.br })
        } else {
            None
        },
{
    if cfg.compression.enable && (cfg.compression.gzip || cfg.compression.br) {
        Some(CompressionPlan { gzip: cfg.compression.gzip, br: cfg.compression.br })
    } else {
        None
    }
}

/// The cross-origin policy: the origins that are allowed, where not every
/// origin is, and the methods that are allowed.
#[derive(Debug, Clone)]
pub struct CorsPlan {
    /// `None` allows every origin.
    pub origins: Option<Vec<String>>,
    pub methods: Vec<String>,
}

/// The texts of `list` that are valid header values, in order.
pub open spec fn valid_values(list: Seq<Seq<char>>) -> Seq<Seq<char>>
    decreases list.len(),
{
    if list.len() == 0 {
        list
    } else {
        let head = valid_values(list.drop_last());
        if valid_header_value(list.last()) {
            head.push(list.last())
        } else {
            head
        }
    }
}

/// The texts of `list` that are valid methods, in order.
pub open spec fn valid_methods(list: Seq<Seq<char>>) -> Seq<Seq<char>>
    decreases list.len(),
{
    if list.len() == 0 {
        list
    } else {
        let head = valid_methods(list.drop_last());
        if valid_method(list.last()) {
            head.push(list.last())
        } else {
            head
        }
    }
}

/// The methods allowed where the configuration names none.
pub open spec fn default_methods() -> Seq<Seq<char>> {
    seq!["GET"@, "POST"@, "PUT"@, "DELETE"@, "OPTIONS"@]
}

/// The origins of the policy: every origin where none is configured, else the
/// configured ones that are valid header values.
pub open spec fn cors_origins(cors: Cors) -> Option<Seq<Seq<char>>> {
    if cors.allowed_origins@.len() == 0 {
        None
    } else {
        Some(valid_values(texts(cors.allowed_origins@)))
    }
}

/// The methods of the policy: the default ones where none is configured, else
/// the configured ones that are valid methods.
pub open spec fn cors_methods(cors: Cors) -> Seq<Seq<char>> {
    if cors.allowed_methods@.len() == 0 {
        default_methods()
    } else {
        valid_methods(texts(cors.allowed_methods@))
    }
}

/// The texts of an optional list of strings.
pub open spec fn opt_texts(list: Option<Vec<String>>) -> Option<Seq<Seq<char>>> {
    match list {
        Some(l) => Some(texts(l@)),
        None => None,
    }
}

fn keep_valid_values(list: &Vec<String>) -> (out: Vec<String>)
    ensures
        texts(out@) == valid_values(texts(list@)),
{
    let mut out: Vec<String> = Vec::new();
    let mut i: usize = 0;
    assert(texts(list@).take(0) =~= Seq::<Seq<char>>::empty());
    assert(texts(out@) =~= Seq::<Seq<char>>::empty());
    while i < list.len()
        invariant
            i <= list.len(),
            texts(out@) == valid_values(texts(list@).take(i as int)),
        decreases list.len() - i,
    {
        let ghost before = texts(out@);
        proof {
            assert(texts(list@).take(i + 1).drop_last() =~= texts(list@).take(i as int));
            assert(texts(list@).take(i + 1).last() == list@[i as int]@);
        }
        if header_value_ok(list[i].as_str()) {
            out.push(list[i].clone());
            assert(texts(out@) =~= before.push(list@[i as int]@));
        }
        i += 1;
    }
    assert(texts(list@).take(list.len() as int) =~= texts(list@));
    out
}

fn keep_valid_methods(list: &Vec<String>) -> (out: Vec<String>)
    ensures
        texts(out@) == valid_methods(texts(list@)),
{
    let mut out: Vec<String> = Vec::new();
    let mut i: usize = 0;
    assert(texts(list@).take(0) =~= Seq::<Seq<char>>::empty());
    assert(texts(out@) =~= Seq::<Seq<char>>::empty());
    while i < list.len()
        invariant
            i <= list.len(),
            texts(out@) == valid_methods(texts(list@).take(i as int)),
        decreases list.len() - i,
    {
        let ghost before = texts(out@);
        proof {
            assert(texts(list@).take(i + 1).drop_last() =~= texts(list@).take(i as int));
            assert(texts(list@).take(i + 1).last() == list@[i as int]@);
        }
        if method_ok(list[i].as_str()) {
            out.push(list[i].clone());
            assert(texts(out@) =~= before.push(list@[i as int]@));
        }
        i += 1;
    }
    assert(texts(list@).take(list.len() as int) =~= texts(list@));
    out
}

/// The cross-origin policy of the configuration, if it has one: none where
/// cross-origin requests are off.
pub fn build_cors(cfg: &Config) -> (plan: Option<CorsPlan>)
    ensures
        plan is Some <==> cfg.security.cors.enabled,
        plan is Some ==> opt_texts(plan->0.origins) == cors_origins(cfg.security.cors)
            && texts(plan->0.methods@) == cors_methods(cfg.security.cors),
{
    if !cfg.security.cors.enabled {
        return None;
    }
    let origins = if cfg.security.cors.allowed_origins.len() == 0 {
        None
    } else {
        Some(keep_valid_values(&cfg.security.cors.allowed_origins))
    };
    let methods = if cfg.security.cors.allowed_methods.len() == 0 {
        let mut m: Vec<String> = Vec::new();
        m.push("GET".to_owned());
        m.push("POST".to_owned());
        m.push("PUT".to_owned());
        m.push("DELETE".to_owned());
        m.push("OPTIONS".to_owned());
        assert(texts(m@) =~= default_methods());
        m
    } else {
        keep_valid_methods(&cfg.security.cors.allowed_methods)
    };
    Some(CorsPlan { origins, methods })
}

} // verus!
