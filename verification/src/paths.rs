//! Paths written with `/`: confinement below a root, joining, parents and
//! extensions.

use crate::text::{
    chars_of, copy_chars, lemma_first_piece_is_prefix, lemma_split_nonempty,
    lemma_split_pieces_free_of_sep, push_all,
    same_chars, slice_chars, spells, split_chars, split_on, string_of, views,
};
use vstd::prelude::*;

verus! {

/// Why a relative path was refused.
#[derive(Clone, Copy, Debug, PartialEq, Eq, Structural)]
pub enum ResolveError {
    /// One of the pieces between `/` is `..`.
    Traversal,
    /// The path starts at the filesystem root instead of being relative.
    InvalidComponent,
    /// The real location of the result lies outside the real location of the root.
    EscapesRoot,
}

impl ResolveError {
    /// The message that goes with each refusal.
    pub open spec fn text(self) -> Seq<char> {
        match self {
            ResolveError::Traversal => "Path traversal detected in fallback path"@,
            ResolveError::InvalidComponent => "Invalid path component in fallback"@,
            ResolveError::EscapesRoot => "Resolved path escapes root directory"@,
        }
    }

    pub fn message(&self) -> (s: String)
        ensures
            s@ == self.text(),
    {
        match self {
            ResolveError::Traversal => "Path traversal detected in fallback path".to_owned(),
            ResolveError::InvalidComponent => "Invalid path component in fallback".to_owned(),
            ResolveError::EscapesRoot => "Resolved path escapes root directory".to_owned(),
        }
    }
}

/// A piece that names nothing: the empty piece left by a doubled or trailing
/// `/`, and the current-directory marker `.`.
pub open spec fn is_skipped(piece: Seq<char>) -> bool {
    piece.len() == 0 || piece == "."@
}

/// The pieces that are not skipped, in order.
pub open spec fn named_among(pieces: Seq<Seq<char>>) -> Seq<Seq<char>>
    decreases pieces.len(),
{
    if pieces.len() == 0 {
        pieces
    } else {
        let head = named_among(pieces.drop_last());
        if is_skipped(pieces.last()) {
            head
        } else {
            head.push(pieces.last())
        }
    }
}

/// The pieces of a `/`-separated path that name something. A `..` piece counts.
pub open spec fn named_pieces(p: Seq<char>) -> Seq<Seq<char>> {
    named_among(split_on(p, '/'))
}

/// Whether some piece of `p`, split at `/`, is exactly `..`.
pub open spec fn has_parent_piece(p: Seq<char>) -> bool {
    split_on(p, '/').contains(".."@)
}

/// Whether `p` starts at the filesystem root.
pub open spec fn has_root(p: Seq<char>) -> bool {
    p.len() > 0 && p[0] == '/'
}

/// Whether `p` is `.` or starts with `./`.
pub open spec fn has_leading_dot(p: Seq<char>) -> bool {
    split_on(p, '/').first() == "."@
}

/// `base` with one more piece below it; a `/` is put between the two unless
/// `base` is empty or already ends in one.
pub open spec fn join_piece(base: Seq<char>, piece: Seq<char>) -> Seq<char> {
    if base.len() == 0 || base.last() == '/' {
        base + piece
    } else {
        base.push('/') + piece
    }
}

/// `base` with `pieces` below it, one after the other.
pub open spec fn join_pieces(base: Seq<char>, pieces: Seq<Seq<char>>) -> Seq<char>
    decreases pieces.len(),
{
    if pieces.len() == 0 {
        base
    } else {
        join_piece(join_pieces(base, pieces.drop_last()), pieces.last())
    }
}

/// What resolving `rel` below `root` gives, before any look at the filesystem.
pub open spec fn resolve_outcome(root: Seq<char>, rel: Seq<char>) -> Result<
    Seq<char>,
    ResolveError,
> {
    if has_parent_piece(rel) {
        Err(ResolveError::Traversal)
    } else if has_root(rel) {
        Err(ResolveError::InvalidComponent)
    } else {
        Ok(join_pieces(root, named_pieces(rel)))
    }
}

/// A result with its path taken as a character sequence.
pub open spec fn path_result(r: Result<String, ResolveError>) -> Result<Seq<char>, ResolveError> {
    match r {
        Ok(p) => Ok(p@),
        Err(e) => Err(e),
    }
}

/// The components of a path: `/` for a leading root, `.` for a leading
/// current-directory marker, then the pieces that name something.
pub open spec fn path_parts(p: Seq<char>) -> Seq<Seq<char>> {
    let lead = if has_root(p) {
        seq!["/"@]
    } else if has_leading_dot(p) {
        seq!["."@]
    } else {
        Seq::<Seq<char>>::empty()
    };
    lead + named_pieces(p)
}

/// Whether the components of `base` are the first components of `p`.
pub open spec fn path_starts_with(p: Seq<char>, base: Seq<char>) -> bool {
    path_parts(base).is_prefix_of(path_parts(p))
}

/// What the check against real locations gives for a resolved path. `None`
/// stands for a location that could not be made real, because it does not
/// exist; the check then passes.
pub open spec fn confine_outcome(
    resolved: Seq<char>,
    root_real: Option<Seq<char>>,
    resolved_real: Option<Seq<char>>,
) -> Result<Seq<char>, ResolveError> {
    if root_real is Some && resolved_real is Some && !path_starts_with(
        resolved_real->0,
        root_real->0,
    ) {
        Err(ResolveError::EscapesRoot)
    } else {
        Ok(resolved)
    }
}

fn is_skipped_piece(piece: &[char]) -> (b: bool)
    ensures
        b == is_skipped(piece@),
{
    piece.len() == 0 || spells(piece, ".")
}

fn any_parent_piece(pieces: &Vec<Vec<char>>) -> (b: bool)
    ensures
        b == views(pieces@).contains(".."@),
{
    let mut i: usize = 0;
    while i < pieces.len()
        invariant
            i <= pieces.len(),
            forall|j: int| 0 <= j < i ==> views(pieces@)[j] != ".."@,
        decreases pieces.len() - i,
    {
        if spells(pieces[i].as_slice(), "..") {
            assert(views(pieces@)[i as int] == ".."@);
            return true;
        }
        i += 1;
    }
    false
}

fn named_of(pieces: &Vec<Vec<char>>) -> (out: Vec<Vec<char>>)
    ensures
        views(out@) == named_among(views(pieces@)),
{
    let mut out: Vec<Vec<char>> = Vec::new();
    let mut i: usize = 0;
    assert(views(pieces@).take(0) =~= Seq::<Seq<char>>::empty());
    assert(views(out@) =~= Seq::<Seq<char>>::empty());
    while i < pieces.len()
        invariant
            i <= pieces.len(),
            views(out@) == named_among(views(pieces@).take(i as int)),
        decreases pieces.len() - i,
    {
        let ghost before = views(out@);
        proof {
            assert(views(pieces@).take(i + 1).drop_last() =~= views(pieces@).take(i as int));
            assert(views(pieces@).take(i + 1).last() == pieces@[i as int]@);
        }
        if !is_skipped_piece(pieces[i].as_slice()) {
            out.push(copy_chars(pieces[i].as_slice()));
            assert(views(out@) =~= before.push(pieces@[i as int]@));
        }
        i += 1;
    }
    assert(views(pieces@).take(pieces.len() as int) =~= views(pieces@));
    out
}

/// Puts one more piece below the path in `base`.
pub fn push_piece(base: &mut Vec<char>, piece: &[char])
    ensures
        final(base)@ == join_piece(old(base)@, piece@),
{
    if base.len() > 0 && base[base.len() - 1] != '/' {
        base.push('/');
    }
    push_all(base, piece);
}

fn push_pieces(base: &mut Vec<char>, pieces: &Vec<Vec<char>>)
    ensures
        final(base)@ == join_pieces(old(base)@, views(pieces@)),
{
    let mut i: usize = 0;
    assert(views(pieces@).take(0) =~= Seq::<Seq<char>>::empty());
    while i < pieces.len()
        invariant
            i <= pieces.len(),
            base@ == join_pieces(old(base)@, views(pieces@).take(i as int)),
        decreases pieces.len() - i,
    {
        proof {
            assert(views(pieces@).take(i + 1).drop_last() =~= views(pieces@).take(i as int));
            assert(views(pieces@).take(i + 1).last() == pieces@[i as int]@);
        }
        push_piece(base, pieces[i].as_slice());
        i += 1;
    }
    assert(views(pieces@).take(pieces.len() as int) =~= views(pieces@));
}

/// Resolves the relative path `rel_path` below `root` without looking at the
/// filesystem. A path with a `..` piece is refused, and so is one that starts
/// at the filesystem root; pieces that name nothing are dropped, and the rest
/// is put below `root` in order.
pub fn resolve_path_within_root(root: &str, rel_path: &str) -> (r: Result<String, ResolveError>)
    ensures
        path_result(r) == resolve_outcome(root@, rel_path@),
        has_parent_piece(rel_path@) ==> r is Err,
{
    let rel = chars_of(rel_path);
    let pieces = split_chars(rel.as_slice(), '/');
    if any_parent_piece(&pieces) {
        return Err(ResolveError::Traversal);
    }
    if rel.len() > 0 && rel[0] == '/' {
        return Err(ResolveError::InvalidComponent);
    }
    let named = named_of(&pieces);
    let mut out = chars_of(root);
    push_pieces(&mut out, &named);
    Ok(string_of(out.as_slice()))
}

/// The components of the path in `p`.
fn parts_of(p: &[char]) -> (parts: Vec<Vec<char>>)
    ensures
        views(parts@) == path_parts(p@),
{
    let pieces = split_chars(p, '/');
    proof {
        lemma_split_nonempty(p@, '/');
    }
    let mut parts: Vec<Vec<char>> = Vec::new();
    if p.len() > 0 && p[0] == '/' {
        parts.push(chars_of("/"));
    } else if spells(pieces[0].as_slice(), ".") {
        parts.push(chars_of("."));
    }
    let ghost lead = views(parts@);
    let named = named_of(&pieces);
    let mut i: usize = 0;
    assert(views(named@).take(0) =~= Seq::<Seq<char>>::empty());
    assert(views(parts@) =~= lead + views(named@).take(0));
    while i < named.len()
        invariant
            i <= named.len(),
            views(parts@) == lead + views(named@).take(i as int),
        decreases named.len() - i,
    {
        let ghost before = views(parts@);
        parts.push(copy_chars(named[i].as_slice()));
        assert(views(parts@) =~= before.push(named@[i as int]@));
        assert(views(named@).take(i + 1) =~= views(named@).take(i as int).push(named@[i as int]@));
        assert(views(parts@) =~= lead + views(named@).take(i + 1));
        i += 1;
    }
    assert(views(named@).take(named.len() as int) =~= views(named@));
    parts
}

/// Whether the components of `base` are the first components of `p`.
pub fn starts_with_path(p: &str, base: &str) -> (b: bool)
    ensures
        b == path_starts_with(p@, base@),
{
    let pc = chars_of(p);
    let bc = chars_of(base);
    let whole = parts_of(pc.as_slice());
    let pre = parts_of(bc.as_slice());
    if pre.len() > whole.len() {
        return false;
    }
    let mut i: usize = 0;
    while i < pre.len()
        invariant
            i <= pre.len() <= whole.len(),
            views(whole@) == path_parts(p@),
            views(pre@) == path_parts(base@),
            forall|j: int| 0 <= j < i ==> views(pre@)[j] == views(whole@)[j],
        decreases pre.len() - i,
    {
        if !same_chars(pre[i].as_slice(), whole[i].as_slice()) {
            proof {
                let cut = views(whole@).subrange(0, pre.len() as int);
                assert(cut[i as int] == views(whole@)[i as int]);
                assert(views(pre@)[i as int] == pre@[i as int]@);
                assert(views(pre@) != cut);
            }
            return false;
        }
        i += 1;
    }
    assert(views(pre@) =~= views(whole@).subrange(0, pre.len() as int));
    true
}

/// Holds a resolved path to the real locations that the filesystem reported
/// for it and for the root. Where both are known, the path is kept only if its
/// real location lies below the root's; where either is unknown, the path is
/// kept as it is.
pub fn confine_resolved(
    resolved: String,
    root_real: Option<&str>,
    resolved_real: Option<&str>,
) -> (r: Result<String, ResolveError>)
    ensures
        path_result(r) == confine_outcome(
            resolved@,
            match root_real {
                Some(t) => Some(t@),
                None => None,
            },
            match resolved_real {
                Some(t) => Some(t@),
                None => None,
            },
        ),
{
    match (root_real, resolved_real) {
        (Some(a), Some(b)) => {
            if starts_with_path(b, a) {
                Ok(resolved)
            } else {
                Err(ResolveError::EscapesRoot)
            }
        },
        _ => Ok(resolved),
    }
}

/// A resolved path begins with the root it was resolved under.
pub proof fn lemma_join_extends_base(base: Seq<char>, pieces: Seq<Seq<char>>)
    ensures
        base.is_prefix_of(join_pieces(base, pieces)),
    decreases pieces.len(),
{
    if pieces.len() > 0 {
        lemma_join_extends_base(base, pieces.drop_last());
        let mid = join_pieces(base, pieces.drop_last());
        let all = join_pieces(base, pieces);
        assert(mid.is_prefix_of(all));
        assert(base =~= all.subrange(0, base.len() as int));
    } else {
        assert(base =~= base.subrange(0, base.len() as int));
    }
}

/// Every piece that resolution puts below the root is a plain name: it is not
/// empty, holds no `/`, and is neither `.` nor `..`.
pub proof fn lemma_resolved_pieces_are_names(root: Seq<char>, rel: Seq<char>)
    requires
        resolve_outcome(root, rel) is Ok,
    ensures
        root.is_prefix_of(resolve_outcome(root, rel)->Ok_0),
        forall|k: int|
            0 <= k < named_pieces(rel).len() ==> {
                let piece = #[trigger] named_pieces(rel)[k];
                &&& piece.len() > 0
                &&& piece != "."@
                &&& piece != ".."@
                &&& !piece.contains('/')
            },
{
    lemma_join_extends_base(root, named_pieces(rel));
    lemma_split_pieces_free_of_sep(rel, '/');
    lemma_named_among_kept(split_on(rel, '/'));
    assert forall|k: int| 0 <= k < named_pieces(rel).len() implies {
        let piece = #[trigger] named_pieces(rel)[k];
        &&& piece.len() > 0
        &&& piece != "."@
        &&& piece != ".."@
        &&& !piece.contains('/')
    } by {
        let piece = named_pieces(rel)[k];
        let j = choose|j: int| 0 <= j < split_on(rel, '/').len() && split_on(rel, '/')[j] == piece;
        assert(split_on(rel, '/').contains(piece));
        if piece.contains('/') {
            let m = choose|m: int| 0 <= m < piece.len() && piece[m] == '/';
            assert(split_on(rel, '/')[j][m] == '/');
        }
    }
}

/// Each piece that is kept is one of the given pieces and is not skipped.
pub proof fn lemma_named_among_kept(pieces: Seq<Seq<char>>)
    ensures
        forall|k: int|
            0 <= k < named_among(pieces).len() ==> {
                &&& !is_skipped(#[trigger] named_among(pieces)[k])
                &&& exists|j: int| 0 <= j < pieces.len() && pieces[j] == named_among(pieces)[k]
            },
    decreases pieces.len(),
{
    if pieces.len() > 0 {
        lemma_named_among_kept(pieces.drop_last());
        let head = named_among(pieces.drop_last());
        assert forall|k: int| 0 <= k < named_among(pieces).len() implies {
            &&& !is_skipped(#[trigger] named_among(pieces)[k])
            &&& exists|j: int| 0 <= j < pieces.len() && pieces[j] == named_among(pieces)[k]
        } by {
            if k < head.len() {
                let j = choose|j: int|
                    0 <= j < pieces.drop_last().len() && pieces.drop_last()[j] == head[k];
                assert(pieces[j] == named_among(pieces)[k]);
            } else {
                assert(pieces[pieces.len() - 1] == named_among(pieces)[k]);
            }
        }
    }
}

/// `base` with the path `name` below it. A `name` that starts at the
/// filesystem root takes the place of `base`.
pub open spec fn join_path(base: Seq<char>, name: Seq<char>) -> Seq<char> {
    if has_root(name) {
        name
    } else {
        join_piece(base, name)
    }
}

/// Puts the path `name` below `base`.
pub fn path_join(base: &str, name: &str) -> (joined: String)
    ensures
        joined@ == join_path(base@, name@),
{
    let n = chars_of(name);
    if n.len() > 0 && n[0] == '/' {
        return string_of(n.as_slice());
    }
    let mut out = chars_of(base);
    push_piece(&mut out, n.as_slice());
    string_of(out.as_slice())
}

/// Where the last piece of `p` starts, when only what lies at or behind
/// position `lo` is looked at: behind the last `/`, or at `lo` without one.
pub open spec fn last_piece_start(p: Seq<char>, lo: int) -> int
    decreases p.len(),
{
    if p.len() == 0 || p.len() <= lo {
        lo
    } else if p.last() == '/' {
        p.len() as int
    } else {
        last_piece_start(p.drop_last(), lo)
    }
}

/// Where to cut `p` to take its last piece away, together with the `/` before
/// it.
pub open spec fn last_piece_cut(p: Seq<char>, lo: int) -> int {
    let k = last_piece_start(p, lo);
    if k > lo {
        k - 1
    } else {
        lo
    }
}

/// `p` without the pieces at its end that name nothing. The first `lo`
/// characters always stay.
pub open spec fn strip_tail(p: Seq<char>, lo: int) -> Seq<char>
    decreases p.len(),
{
    let cut = last_piece_cut(p, lo);
    if 0 <= lo <= cut < p.len() && is_skipped(p.skip(last_piece_start(p, lo))) {
        strip_tail(p.take(cut), lo)
    } else {
        p
    }
}

/// How many characters at the start of `p` stand for the root or for a
/// leading current-directory marker.
pub open spec fn body_start(p: Seq<char>) -> int {
    if has_root(p) || has_leading_dot(p) {
        1
    } else {
        0
    }
}

/// The path without its last named piece: the text of the directory that the
/// last piece lives in. Empty where `p` names nothing.
pub open spec fn parent_of(p: Seq<char>) -> Seq<char> {
    let lo = body_start(p);
    let t = strip_tail(p, lo);
    if t.len() > lo {
        strip_tail(t.take(last_piece_cut(t, lo)), lo)
    } else {
        Seq::<char>::empty()
    }
}

/// The start of the last piece is a position of the path, at or behind `lo`.
pub proof fn lemma_last_piece_bounds(p: Seq<char>, lo: int)
    requires
        0 <= lo <= p.len(),
    ensures
        lo <= last_piece_start(p, lo) <= p.len(),
        last_piece_start(p, lo) < p.len() ==> lo <= last_piece_cut(p, lo) < p.len(),
        last_piece_start(p, lo) == p.len() && p.len() > lo ==> lo <= last_piece_cut(p, lo)
            < p.len(),
    decreases p.len(),
{
    if p.len() > lo && p.last() != '/' {
        lemma_last_piece_bounds(p.drop_last(), lo);
    }
    if p.len() > lo && p.last() != '/' && last_piece_start(p, lo) == p.len() {
        assert(last_piece_start(p.drop_last(), lo) <= p.len() - 1);
    }
}

/// Stripping the tail leaves a start of the path, no shorter than `lo`.
pub proof fn lemma_strip_tail_is_prefix(p: Seq<char>, lo: int)
    requires
        0 <= lo <= p.len(),
    ensures
        lo <= strip_tail(p, lo).len() <= p.len(),
        strip_tail(p, lo) == p.take(strip_tail(p, lo).len() as int),
    decreases p.len(),
{
    let cut = last_piece_cut(p, lo);
    if 0 <= lo <= cut < p.len() && is_skipped(p.skip(last_piece_start(p, lo))) {
        lemma_strip_tail_is_prefix(p.take(cut), lo);
        let n = strip_tail(p, lo).len() as int;
        assert(p.take(cut).take(n) =~= p.take(n));
    } else {
        assert(p =~= p.take(p.len() as int));
    }
}

/// A root or a leading current-directory marker takes up the first character
/// of the path.
pub proof fn lemma_body_start_bounds(p: Seq<char>)
    ensures
        0 <= body_start(p) <= p.len(),
{
    if has_leading_dot(p) {
        reveal_strlit(".");
        lemma_first_piece_is_prefix(p, '/');
    }
}

/// The parent of a path is a start of the path: the end is cut off, and
/// nothing of the rest is rewritten.
pub proof fn lemma_parent_is_prefix(p: Seq<char>)
    ensures
        parent_of(p).is_prefix_of(p),
{
    let lo = body_start(p);
    lemma_body_start_bounds(p);
    lemma_strip_tail_is_prefix(p, lo);
    let t = strip_tail(p, lo);
    if t.len() > lo {
        lemma_last_piece_bounds(t, lo);
        let cut = last_piece_cut(t, lo);
        lemma_strip_tail_is_prefix(t.take(cut), lo);
        let n = parent_of(p).len() as int;
        assert(t.take(cut).take(n) =~= p.take(n));
        assert(parent_of(p) =~= p.subrange(0, n));
    } else {
        assert(parent_of(p) =~= p.subrange(0, 0));
    }
}

/// Where the last piece of the first `end` characters of `s` starts.
fn piece_start(s: &[char], end: usize, lo: usize) -> (k: usize)
    requires
        lo <= end <= s@.len(),
    ensures
        k == last_piece_start(s@.take(end as int), lo as int),
        lo <= k <= end,
{
    let mut k: usize = end;
    while k > lo && s[k - 1] != '/'
        invariant
            lo <= k <= end <= s@.len(),
            last_piece_start(s@.take(end as int), lo as int) == last_piece_start(
                s@.take(k as int),
                lo as int,
            ),
        decreases k,
    {
        assert(s@.take(k as int).drop_last() =~= s@.take(k - 1));
        k -= 1;
    }
    k
}

/// How many of the first `end` characters of `s` are left once the pieces at
/// their end that name nothing are gone.
fn stripped_len(s: &[char], end: usize, lo: usize) -> (n: usize)
    requires
        lo <= end <= s@.len(),
    ensures
        lo <= n <= end,
        s@.take(n as int) == strip_tail(s@.take(end as int), lo as int),
{
    let mut n: usize = end;
    while n > lo
        invariant
            lo <= n <= end <= s@.len(),
            strip_tail(s@.take(end as int), lo as int) == strip_tail(s@.take(n as int), lo as int),
        decreases n,
    {
        let k = piece_start(s, n, lo);
        let last = slice_chars(s, k, n);
        assert(last@ =~= s@.take(n as int).skip(k as int));
        if last.len() == 0 || spells(last.as_slice(), ".") {
            let cut: usize = if k > lo {
                k - 1
            } else {
                lo
            };
            proof {
                lemma_last_piece_bounds(s@.take(n as int), lo as int);
                assert(s@.take(n as int).take(cut as int) =~= s@.take(cut as int));
            }
            n = cut;
        } else {
            return n;
        }
    }
    n
}

/// The text of the directory that the last named piece of `p` lives in.
pub fn parent_path(p: &str) -> (parent: String)
    ensures
        parent@ == parent_of(p@),
{
    let s = chars_of(p);
    let pieces = split_chars(s.as_slice(), '/');
    proof {
        lemma_split_nonempty(p@, '/');
    }
    let rooted = s.len() > 0 && s[0] == '/';
    let dotted = spells(pieces[0].as_slice(), ".");
    let lo: usize = if rooted || dotted {
        1
    } else {
        0
    };
    proof {
        lemma_body_start_bounds(p@);
        assert(s@.take(s.len() as int) =~= s@);
    }
    let n = stripped_len(s.as_slice(), s.len(), lo);
    if n > lo {
        let k = piece_start(s.as_slice(), n, lo);
        let cut: usize = if k > lo {
            k - 1
        } else {
            lo
        };
        proof {
            assert(s@.take(n as int).take(cut as int) =~= s@.take(cut as int));
        }
        let m = stripped_len(s.as_slice(), cut, lo);
        let out = slice_chars(s.as_slice(), 0, m);
        assert(out@ =~= s@.take(m as int));
        string_of(out.as_slice())
    } else {
        String::new()
    }
}

/// The name of the file that a path ends in: its last named piece, unless
/// that is `..`.
pub open spec fn file_name_of(p: Seq<char>) -> Option<Seq<char>> {
    let named = named_pieces(p);
    if named.len() == 0 || named.last() == ".."@ {
        None
    } else {
        Some(named.last())
    }
}

/// The extension of a file name: what follows its last `.`; empty where the
/// name holds no `.`, or only one at its start.
pub open spec fn name_extension(name: Seq<char>) -> Seq<char> {
    let pieces = split_on(name, '.');
    if pieces.len() < 2 || (pieces.len() == 2 && pieces.first().len() == 0) {
        Seq::<char>::empty()
    } else {
        pieces.last()
    }
}

/// The extension of the file that a path ends in; empty where there is none.
pub open spec fn extension_of(p: Seq<char>) -> Seq<char> {
    match file_name_of(p) {
        Some(name) => name_extension(name),
        None => Seq::<char>::empty(),
    }
}

/// The extension of the file that a path ends in.
pub fn path_extension(p: &str) -> (ext: String)
    ensures
        ext@ == extension_of(p@),
{
    let s = chars_of(p);
    let pieces = split_chars(s.as_slice(), '/');
    let named = named_of(&pieces);
    if named.len() == 0 {
        return String::new();
    }
    let name = &named[named.len() - 1];
    if spells(name.as_slice(), "..") {
        return String::new();
    }
    let parts = split_chars(name.as_slice(), '.');
    if parts.len() < 2 || (parts.len() == 2 && parts[0].len() == 0) {
        return String::new();
    }
    string_of(parts[parts.len() - 1].as_slice())
}

} // verus!
