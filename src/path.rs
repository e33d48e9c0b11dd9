//! Shortening of source paths that point into the Cargo registry.
use crate::text::starts_with;
use vstd::prelude::*;

verus! {

/// The name of every Cargo registry checkout directory starts with this.
pub const REGISTRY_MARKER: &'static str = "github.com-";

/// A path is absolute when it begins at the root.
pub open spec fn is_absolute(p: Seq<char>) -> bool {
    p.len() > 0 && p[0] == '/'
}

/// The pieces of `p` between separators, in order; empty pieces included.
pub open spec fn pieces(p: Seq<char>) -> Seq<Seq<char>>
    decreases p.len(),
{
    if p.len() == 0 {
        seq![Seq::empty()]
    } else {
        let init = pieces(p.drop_last());
        if p.last() == '/' {
            init.push(Seq::empty())
        } else {
            init.update(init.len() - 1, init.last().push(p.last()))
        }
    }
}

/// A piece names a component unless it is empty (a doubled or trailing
/// separator) or the current directory `.`.
pub open spec fn is_component(piece: Seq<char>) -> bool {
    piece.len() > 0 && piece != seq!['.']
}

/// The pieces that name components.
pub open spec fn keep_components(ps: Seq<Seq<char>>) -> Seq<Seq<char>> {
    ps.filter(|c: Seq<char>| is_component(c))
}

/// The components of `p`, in order.
pub open spec fn components(p: Seq<char>) -> Seq<Seq<char>> {
    keep_components(pieces(p))
}

/// A component that is a registry checkout directory.
pub open spec fn is_marker_component(c: Seq<char>) -> bool {
    REGISTRY_MARKER@.is_prefix_of(c)
}

/// The index of the first registry checkout component, if any.
pub open spec fn first_marker(cs: Seq<Seq<char>>) -> Option<int>
    decreases cs.len(),
{
    if cs.len() == 0 {
        None
    } else {
        match first_marker(cs.drop_last()) {
            Some(k) => Some(k),
            None => if is_marker_component(cs.last()) {
                Some(cs.len() - 1)
            } else {
                None
            },
        }
    }
}

/// The components joined by single separators.
pub open spec fn join(cs: Seq<Seq<char>>) -> Seq<char>
    decreases cs.len(),
{
    if cs.len() == 0 {
        Seq::empty()
    } else if cs.len() == 1 {
        cs[0]
    } else {
        join(cs.drop_last()) + seq!['/'] + cs.last()
    }
}

/// The components after the first registry checkout component, joined;
/// `None` when there is no such component.
pub open spec fn after_marker(cs: Seq<Seq<char>>) -> Option<Seq<char>> {
    match first_marker(cs) {
        Some(k) => Some(join(cs.subrange(k + 1, cs.len() as int))),
        None => None,
    }
}

/// The shortened form of path `p`: an absolute path with a registry checkout
/// component loses that component and everything before it; any other path
/// is kept as it is.
pub open spec fn shortened(p: Seq<char>) -> Seq<char> {
    if is_absolute(p) {
        match after_marker(components(p)) {
            Some(rest) => rest,
            None => p,
        }
    } else {
        p
    }
}

proof fn lemma_pieces_nonempty(p: Seq<char>)
    ensures
        pieces(p).len() >= 1,
    decreases p.len(),
{
    if p.len() > 0 {
        lemma_pieces_nonempty(p.drop_last());
    }
}

proof fn lemma_pieces_step(p: Seq<char>, i: int)
    requires
        0 <= i < p.len(),
    ensures
        pieces(p.take(i + 1)) == if p[i] == '/' {
            pieces(p.take(i)).push(Seq::empty())
        } else {
            pieces(p.take(i)).update(
                pieces(p.take(i)).len() - 1,
                pieces(p.take(i)).last().push(p[i]),
            )
        },
{
    assert(p.take(i + 1).drop_last() =~= p.take(i));
}

proof fn lemma_keep_push(ps: Seq<Seq<char>>, piece: Seq<char>)
    ensures
        keep_components(ps.push(piece)) == if is_component(piece) {
            keep_components(ps).push(piece)
        } else {
            keep_components(ps)
        },
{
    ps.lemma_filter_push(piece, |c: Seq<char>| is_component(c));
}

/// How the shortened form grows when one more component is read.
proof fn lemma_after_marker_push(cs: Seq<Seq<char>>, c: Seq<char>)
    requires
        c.len() > 0,
        forall|j: int| 0 <= j < cs.len() ==> (#[trigger] cs[j]).len() > 0,
    ensures
        after_marker(cs.push(c)) == match after_marker(cs) {
            Some(rest) => Some(if rest.len() == 0 { c } else { rest + seq!['/'] + c }),
            None => if is_marker_component(c) {
                Some(Seq::<char>::empty())
            } else {
                None
            },
        },
{
    let cs2 = cs.push(c);
    assert(cs2.drop_last() =~= cs);
    lemma_first_marker_range(cs);
    match first_marker(cs) {
        Some(k) => {
            let sub = cs.subrange(k + 1, cs.len() as int);
            let sub2 = cs2.subrange(k + 1, cs2.len() as int);
            assert(sub2.drop_last() =~= sub);
            assert(sub2.last() == c);
            if sub.len() > 0 {
                assert(sub[0] == cs[k + 1]);
                lemma_join_nonempty(sub);
            }
        },
        None => {
            assert(cs2.subrange(cs2.len() as int, cs2.len() as int) =~= Seq::<Seq<char>>::empty());
        },
    }
}

proof fn lemma_first_marker_range(cs: Seq<Seq<char>>)
    ensures
        first_marker(cs) matches Some(k) ==> 0 <= k < cs.len() && is_marker_component(cs[k]),
        first_marker(cs) is None ==> forall|j: int| 0 <= j < cs.len() ==> !is_marker_component(#[trigger] cs[j]),
    decreases cs.len(),
{
    if cs.len() > 0 {
        lemma_first_marker_range(cs.drop_last());
        assert forall|j: int| 0 <= j < cs.len() - 1 implies cs.drop_last()[j] == cs[j] by {}
    }
}

proof fn lemma_join_nonempty(cs: Seq<Seq<char>>)
    requires
        cs.len() > 0,
        cs[0].len() > 0,
    ensures
        join(cs).len() > 0,
        join(cs)[0] == cs[0][0],
    decreases cs.len(),
{
    if cs.len() > 1 {
        assert(cs.drop_last()[0] == cs[0]);
        lemma_join_nonempty(cs.drop_last());
    }
}

/// The components read so far, after one more piece has been read.
pub open spec fn with_piece(cs: Seq<Seq<char>>, piece: Seq<char>) -> Seq<Seq<char>> {
    if is_component(piece) {
        cs.push(piece)
    } else {
        cs
    }
}

/// Whether `piece` names a component.
fn piece_is_component(piece: &str) -> (r: bool)
    ensures
        r == is_component(piece@),
{
    let n = piece.unicode_len();
    if n == 0 {
        false
    } else if n == 1 && piece.get_char(0) == '.' {
        proof {
            assert(piece@ =~= seq!['.']);
        }
        false
    } else {
        proof {
            if n == 1 {
                assert(seq!['.'][0] == '.');
            }
        }
        true
    }
}

/// Reads one more piece: the first registry checkout component is noted,
/// and every component after it is added to `out`.
fn take_piece(piece: &str, found: &mut bool, out: &mut String, Ghost(cs): Ghost<Seq<Seq<char>>>)
    requires
        forall|j: int| 0 <= j < cs.len() ==> (#[trigger] cs[j]).len() > 0,
        *old(found) == after_marker(cs) is Some,
        *old(found) ==> after_marker(cs) == Some(old(out)@),
        !*old(found) ==> old(out)@.len() == 0,
    ensures
        *final(found) == after_marker(with_piece(cs, piece@)) is Some,
        *final(found) ==> after_marker(with_piece(cs, piece@)) == Some(final(out)@),
        !*final(found) ==> final(out)@.len() == 0,
{
    if piece_is_component(piece) {
        proof {
            lemma_after_marker_push(cs, piece@);
        }
        if *found {
            if !out.as_str().is_empty() {
                proof {
                    reveal_strlit("/");
                    assert("/"@ =~= seq!['/']);
                }
                out.append("/");
            }
            out.append(piece);
        } else if starts_with(piece, REGISTRY_MARKER) {
            *found = true;
        }
    }
}

/// Shortens a source path for display.
///
/// Relative paths (the crate's own sources, the standard library) are kept.
/// Absolute paths into the Cargo registry lose everything up to and including
/// the first component that starts with `github.com-`; other absolute paths
/// are kept.
pub fn clean_path(p: &str) -> (r: String)
    ensures
        r@ == shortened(p@),
{
    let n = p.unicode_len();
    if n == 0 || p.get_char(0) != '/' {
        return String::from_str(p);
    }
    let mut out = String::new();
    let mut found = false;
    let mut start: usize = 0;
    let mut i: usize = 0;
    let ghost mut done: Seq<Seq<char>> = seq![];
    proof {
        assert(p@.take(0) =~= Seq::<char>::empty());
        assert(done.push(p@.subrange(0, 0)) =~= seq![Seq::<char>::empty()]);
    }
    while i < n
        invariant
            n == p@.len(),
            start <= i <= n,
            pieces(p@.take(i as int)) == done.push(p@.subrange(start as int, i as int)),
            forall|j: int|
                0 <= j < keep_components(done).len() ==> (#[trigger] keep_components(
                    done,
                )[j]).len() > 0,
            found == after_marker(keep_components(done)) is Some,
            found ==> after_marker(keep_components(done)) == Some(out@),
            !found ==> out@.len() == 0,
        decreases n - i,
    {
        proof {
            lemma_pieces_step(p@, i as int);
        }
        if p.get_char(i) == '/' {
            let piece = p.substring_char(start, i);
            take_piece(piece, &mut found, &mut out, Ghost(keep_components(done)));
            proof {
                lemma_keep_push(done, piece@);
                done = done.push(piece@);
                assert(p@.subrange(i + 1, i + 1) =~= Seq::<char>::empty());
            }
            start = i + 1;
        } else {
            proof {
                let prev = done.push(p@.subrange(start as int, i as int));
                assert(p@.subrange(start as int, i + 1) =~= p@.subrange(start as int, i as int).push(
                    p@[i as int],
                ));
                assert(prev.update(prev.len() - 1, prev.last().push(p@[i as int])) =~= done.push(
                    p@.subrange(start as int, i + 1),
                ));
            }
        }
        i += 1;
    }
    let piece = p.substring_char(start, n);
    take_piece(piece, &mut found, &mut out, Ghost(keep_components(done)));
    proof {
        assert(p@.take(n as int) =~= p@);
        lemma_keep_push(done, piece@);
    }
    if found {
        out
    } else {
        String::from_str(p)
    }
}

/// A piece holds no separator.
pub open spec fn no_separator(c: Seq<char>) -> bool {
    forall|t: int| 0 <= t < c.len() ==> c[t] != '/'
}

proof fn lemma_pieces_no_separator(p: Seq<char>)
    ensures
        forall|j: int| 0 <= j < pieces(p).len() ==> no_separator(#[trigger] pieces(p)[j]),
    decreases p.len(),
{
    if p.len() > 0 {
        lemma_pieces_no_separator(p.drop_last());
        lemma_pieces_nonempty(p.drop_last());
    }
}

proof fn lemma_keep_components_clean(ps: Seq<Seq<char>>)
    requires
        forall|j: int| 0 <= j < ps.len() ==> no_separator(#[trigger] ps[j]),
    ensures
        forall|j: int|
            0 <= j < keep_components(ps).len() ==> no_separator(#[trigger] keep_components(ps)[j])
                && is_component(keep_components(ps)[j]),
    decreases ps.len(),
{
    if ps.len() > 0 {
        let init = ps.drop_last();
        assert(init.push(ps.last()) =~= ps);
        lemma_keep_components_clean(init);
        lemma_keep_push(init, ps.last());
    }
}

/// Relative paths are kept as they are.
pub proof fn lemma_relative_kept(p: Seq<char>)
    requires
        !is_absolute(p),
    ensures
        shortened(p) == p,
{
}

/// Shortening twice gives what shortening once gives: a shortened path is
/// either kept as it was or no longer absolute.
pub proof fn lemma_shortened_idempotent(p: Seq<char>)
    ensures
        shortened(shortened(p)) == shortened(p),
{
    if is_absolute(p) {
        let cs = components(p);
        if let Some(k) = first_marker(cs) {
            lemma_first_marker_range(cs);
            lemma_pieces_no_separator(p);
            lemma_keep_components_clean(pieces(p));
            let sub = cs.subrange(k + 1, cs.len() as int);
            if sub.len() > 0 {
                assert(sub[0] == cs[k + 1]);
                lemma_join_nonempty(sub);
            }
        }
    }
}

} // verus!
