//! Playlist selection: filter to the titles the archive is about, order
//! ascending by identifier, and drop duplicate identifiers.
//!
//! The selection is specified as a left fold: each playlist of the input,
//! in order, is inserted into an identifier-sorted accumulator unless its
//! title misses the criterion or its identifier is already present — so
//! of two records with one identifier the first one wins, and the result
//! is strictly sorted.

use vstd::prelude::*;

use crate::domain::{Playlist, PlaylistView};
use crate::text::{
    is_recipe_title, lemma_lex_lt_connex, lemma_lex_lt_irrefl, lemma_lex_lt_trans, lex_lt, str_lt,
    title_selected,
};

verus! {

/// The sequence is strictly ascending by identifier.
pub open spec fn sorted_strict(s: Seq<PlaylistView>) -> bool {
    forall|i: int, j: int|
        #![trigger s[i], s[j]]
        0 <= i < j < s.len() ==> lex_lt(s[i].id, s[j].id)
}

/// Some element of `s` carries the identifier `id`.
pub open spec fn has_id(s: Seq<PlaylistView>, id: Seq<char>) -> bool {
    exists|i: int| 0 <= i < s.len() && s[i].id == id
}

/// Every element's title meets the selection criterion.
pub open spec fn all_selected(s: Seq<PlaylistView>) -> bool {
    forall|i: int| 0 <= i < s.len() ==> is_recipe_title(#[trigger] s[i].title)
}

/// Where `id` belongs in `s` when `s` is sorted: the index of the first
/// element not below it.
pub open spec fn insert_pos(s: Seq<PlaylistView>, id: Seq<char>) -> int
    decreases s.len(),
{
    if s.len() == 0 {
        0
    } else if lex_lt(s.first().id, id) {
        1 + insert_pos(s.drop_first(), id)
    } else {
        0
    }
}

/// `p` inserted into `s` at its identifier's position.
pub open spec fn spec_insert(s: Seq<PlaylistView>, p: PlaylistView) -> Seq<PlaylistView> {
    s.take(insert_pos(s, p.id)) + seq![p] + s.skip(insert_pos(s, p.id))
}

/// One step of the fold: `p` is inserted when its title is selected and
/// its identifier is new; otherwise the accumulator stands.
pub open spec fn spec_select_step(acc: Seq<PlaylistView>, p: PlaylistView) -> Seq<PlaylistView> {
    if is_recipe_title(p.title) && !has_id(acc, p.id) {
        spec_insert(acc, p)
    } else {
        acc
    }
}

/// The fold of [`spec_select_step`] over `s`, started at `acc`.
pub open spec fn spec_select_from(acc: Seq<PlaylistView>, s: Seq<PlaylistView>) -> Seq<
    PlaylistView,
>
    decreases s.len(),
{
    if s.len() == 0 {
        acc
    } else {
        spec_select_from(spec_select_step(acc, s.first()), s.drop_first())
    }
}

/// The selected, sorted, deduplicated form of a fetched collection.
pub open spec fn spec_select(s: Seq<PlaylistView>) -> Seq<PlaylistView> {
    spec_select_from(Seq::empty(), s)
}

proof fn lemma_insert_pos_props(s: Seq<PlaylistView>, id: Seq<char>)
    ensures
        0 <= insert_pos(s, id) <= s.len(),
        forall|j: int| 0 <= j < insert_pos(s, id) ==> lex_lt(#[trigger] s[j].id, id),
        insert_pos(s, id) < s.len() ==> !lex_lt(s[insert_pos(s, id)].id, id),
    decreases s.len(),
{
    if s.len() > 0 && lex_lt(s.first().id, id) {
        lemma_insert_pos_props(s.drop_first(), id);
        assert(forall|j: int|
            1 <= j < s.len() ==> #[trigger] s[j] == s.drop_first()[j - 1]);
    }
}

proof fn lemma_insert_pos_unique(s: Seq<PlaylistView>, id: Seq<char>, k: int)
    requires
        0 <= k <= s.len(),
        forall|j: int| 0 <= j < k ==> lex_lt(#[trigger] s[j].id, id),
        k < s.len() ==> !lex_lt(s[k].id, id),
    ensures
        insert_pos(s, id) == k,
    decreases k,
{
    if k == 0 {
        if s.len() > 0 {
            assert(s.first() == s[0]);
        }
    } else {
        assert(s.first() == s[0]);
        assert(lex_lt(s[0].id, id));
        assert(forall|j: int|
            1 <= j < s.len() ==> #[trigger] s.drop_first()[j - 1] == s[j]);
        assert(forall|j: int|
            0 <= j < k - 1 ==> lex_lt(#[trigger] s.drop_first()[j].id, id));
        lemma_insert_pos_unique(s.drop_first(), id, k - 1);
    }
}

/// One fold step keeps the accumulator sorted and selected-only.
proof fn lemma_step_props(acc: Seq<PlaylistView>, p: PlaylistView)
    requires
        sorted_strict(acc),
        all_selected(acc),
    ensures
        sorted_strict(spec_select_step(acc, p)),
        all_selected(spec_select_step(acc, p)),
{
    if is_recipe_title(p.title) && !has_id(acc, p.id) {
        lemma_insert_pos_props(acc, p.id);
        let pos = insert_pos(acc, p.id);
        let r = spec_insert(acc, p);
        assert(r.len() == acc.len() + 1);
        assert(forall|i: int| 0 <= i < pos ==> r[i] == acc[i]);
        assert(r[pos] == p);
        assert(forall|i: int| pos < i < r.len() ==> r[i] == acc[i - 1]);
        if pos < acc.len() {
            assert(acc[pos].id != p.id) by {
                if acc[pos].id == p.id {
                    assert(has_id(acc, p.id));
                }
            }
            lemma_lex_lt_connex(p.id, acc[pos].id);
            assert(lex_lt(p.id, acc[pos].id));
        }
        assert forall|i: int, j: int|
            #![trigger r[i], r[j]]
            0 <= i < j < r.len() implies lex_lt(r[i].id, r[j].id) by {
            if i == pos && j > pos {
                if j - 1 > pos {
                    lemma_lex_lt_trans(p.id, acc[pos].id, acc[j - 1].id);
                }
            }
        }
    }
}

proof fn lemma_select_from_props(acc: Seq<PlaylistView>, s: Seq<PlaylistView>)
    requires
        sorted_strict(acc),
        all_selected(acc),
    ensures
        sorted_strict(spec_select_from(acc, s)),
        all_selected(spec_select_from(acc, s)),
    decreases s.len(),
{
    if s.len() > 0 {
        lemma_step_props(acc, s.first());
        lemma_select_from_props(spec_select_step(acc, s.first()), s.drop_first());
    }
}

/// The selection of any collection is strictly sorted and selected-only.
pub proof fn lemma_select_props(s: Seq<PlaylistView>)
    ensures
        sorted_strict(spec_select(s)),
        all_selected(spec_select(s)),
{
    lemma_select_from_props(Seq::empty(), s);
}

proof fn lemma_step_members(acc: Seq<PlaylistView>, p: PlaylistView)
    ensures
        forall|k: int|
            0 <= k < spec_select_step(acc, p).len() ==> (acc.contains(
                #[trigger] spec_select_step(acc, p)[k],
            ) || spec_select_step(acc, p)[k] == p),
        forall|id: Seq<char>| #[trigger] has_id(acc, id) ==> has_id(spec_select_step(acc, p), id),
        is_recipe_title(p.title) ==> has_id(spec_select_step(acc, p), p.id),
{
    let r = spec_select_step(acc, p);
    if is_recipe_title(p.title) && !has_id(acc, p.id) {
        lemma_insert_pos_props(acc, p.id);
        let pos = insert_pos(acc, p.id);
        assert(r.len() == acc.len() + 1);
        assert(forall|i: int| 0 <= i < pos ==> r[i] == acc[i]);
        assert(r[pos] == p);
        assert(forall|i: int| pos < i < r.len() ==> r[i] == acc[i - 1]);
        assert forall|k: int| 0 <= k < r.len() implies (acc.contains(#[trigger] r[k]) || r[k]
            == p) by {
            if k < pos {
                assert(r[k] == acc[k]);
                assert(acc.contains(acc[k]));
            } else if k > pos {
                assert(r[k] == acc[k - 1]);
                assert(acc.contains(acc[k - 1]));
            }
        }
        assert forall|id: Seq<char>| #[trigger] has_id(acc, id) implies has_id(r, id) by {
            let i = choose|i: int| 0 <= i < acc.len() && acc[i].id == id;
            if i < pos {
                assert(r[i].id == id);
            } else {
                assert(r[i + 1].id == id);
            }
        }
        assert(has_id(r, p.id)) by {
            assert(r[pos].id == p.id);
        }
    } else {
        assert(forall|k: int|
            0 <= k < r.len() ==> acc.contains(#[trigger] r[k]) || r[k] == p) by {
            assert(forall|k: int| 0 <= k < r.len() ==> r[k] == acc[k] && acc.contains(acc[k]));
        }
    }
}

proof fn lemma_select_from_members(acc: Seq<PlaylistView>, s: Seq<PlaylistView>)
    ensures
        forall|k: int|
            0 <= k < spec_select_from(acc, s).len() ==> (acc.contains(
                #[trigger] spec_select_from(acc, s)[k],
            ) || s.contains(spec_select_from(acc, s)[k])),
        forall|id: Seq<char>| #[trigger] has_id(acc, id) ==> has_id(spec_select_from(acc, s), id),
        forall|i: int|
            0 <= i < s.len() && is_recipe_title(#[trigger] s[i].title) ==> has_id(
                spec_select_from(acc, s),
                s[i].id,
            ),
    decreases s.len(),
{
    if s.len() > 0 {
        let p = s.first();
        let acc2 = spec_select_step(acc, p);
        let res = spec_select_from(acc, s);
        lemma_step_members(acc, p);
        lemma_select_from_members(acc2, s.drop_first());
        assert(res == spec_select_from(acc2, s.drop_first()));
        assert(forall|j: int| 1 <= j < s.len() ==> #[trigger] s[j] == s.drop_first()[j - 1]);
        assert(s.contains(p)) by {
            assert(s[0] == p);
        }
        assert forall|k: int|
            0 <= k < res.len() implies (acc.contains(#[trigger] res[k]) || s.contains(
            res[k],
        )) by {
            if acc2.contains(res[k]) {
                let m = choose|m: int| 0 <= m < acc2.len() && acc2[m] == res[k];
                assert(acc.contains(acc2[m]) || acc2[m] == p);
            } else {
                let m = choose|m: int|
                    0 <= m < s.drop_first().len() && s.drop_first()[m] == res[k];
                assert(s[m + 1] == res[k]);
                assert(s.contains(s[m + 1]));
            }
        }
        assert forall|i: int|
            0 <= i < s.len() && is_recipe_title(#[trigger] s[i].title) implies has_id(
            res,
            s[i].id,
        ) by {
            if i == 0 {
                assert(has_id(acc2, p.id));
            } else {
                assert(s.drop_first()[i - 1] == s[i]);
            }
        }
    }
}

/// What the selection holds: every selected record is one of the input
/// records, its title meets the criterion, and every identifier of a
/// recipe-titled input record is represented.
pub proof fn lemma_select_members(s: Seq<PlaylistView>)
    ensures
        forall|k: int|
            0 <= k < spec_select(s).len() ==> s.contains(#[trigger] spec_select(s)[k]),
        all_selected(spec_select(s)),
        forall|i: int|
            0 <= i < s.len() && is_recipe_title(#[trigger] s[i].title) ==> has_id(
                spec_select(s),
                s[i].id,
            ),
{
    lemma_select_props(s);
    lemma_select_from_members(Seq::empty(), s);
    assert forall|k: int| 0 <= k < spec_select(s).len() implies s.contains(
        #[trigger] spec_select(s)[k],
    ) by {
        if Seq::<PlaylistView>::empty().contains(spec_select(s)[k]) {
            let m = choose|m: int|
                0 <= m < Seq::<PlaylistView>::empty().len() && Seq::<PlaylistView>::empty()[m]
                    == spec_select(s)[k];
        }
    }
}

/// Folding one more element equals one step after folding the rest.
proof fn lemma_select_from_snoc(acc: Seq<PlaylistView>, s: Seq<PlaylistView>, p: PlaylistView)
    ensures
        spec_select_from(acc, s.push(p)) == spec_select_step(spec_select_from(acc, s), p),
    decreases s.len(),
{
    if s.len() == 0 {
        assert(s.push(p).first() == p);
        assert(s.push(p).drop_first() =~= Seq::<PlaylistView>::empty());
        assert(spec_select_from(acc, s.push(p)) == spec_select_from(
            spec_select_step(acc, p),
            Seq::empty(),
        ));
        assert(spec_select_from(acc, s) == acc);
    } else {
        assert(s.push(p).first() == s.first());
        assert(s.push(p).drop_first() =~= s.drop_first().push(p));
        assert(spec_select_from(acc, s.push(p)) == spec_select_from(
            spec_select_step(acc, s.first()),
            s.drop_first().push(p),
        ));
        lemma_select_from_snoc(spec_select_step(acc, s.first()), s.drop_first(), p);
        assert(spec_select_from(acc, s) == spec_select_from(
            spec_select_step(acc, s.first()),
            s.drop_first(),
        ));
    }
}

proof fn lemma_insert_at_end(acc: Seq<PlaylistView>, p: PlaylistView)
    requires
        forall|j: int| 0 <= j < acc.len() ==> lex_lt(#[trigger] acc[j].id, p.id),
    ensures
        spec_insert(acc, p) == acc.push(p),
{
    lemma_insert_pos_props(acc, p.id);
    lemma_insert_pos_unique(acc, p.id, acc.len() as int);
    assert(spec_insert(acc, p) =~= acc.push(p));
}

proof fn lemma_select_from_fixed(acc: Seq<PlaylistView>, u: Seq<PlaylistView>)
    requires
        sorted_strict(acc + u),
        all_selected(u),
    ensures
        spec_select_from(acc, u) == acc + u,
    decreases u.len(),
{
    if u.len() == 0 {
        assert(acc + u =~= acc);
    } else {
        let p = u.first();
        assert((acc + u)[acc.len() as int] == p);
        assert(forall|j: int| 0 <= j < acc.len() ==> #[trigger] acc[j] == (acc + u)[j]);
        assert(forall|j: int| 0 <= j < acc.len() ==> lex_lt(#[trigger] acc[j].id, p.id));
        assert(!has_id(acc, p.id)) by {
            if has_id(acc, p.id) {
                let i = choose|i: int| 0 <= i < acc.len() && acc[i].id == p.id;
                lemma_lex_lt_irrefl(p.id);
            }
        }
        lemma_insert_at_end(acc, p);
        assert(spec_select_step(acc, p) == acc.push(p));
        assert(acc.push(p) + u.drop_first() =~= acc + u);
        lemma_select_from_fixed(acc.push(p), u.drop_first());
        assert(spec_select_from(acc, u) == spec_select_from(acc.push(p), u.drop_first()));
    }
}

/// Selecting is idempotent: the selection of a selection is itself. With
/// the snapshot text a function of the selection alone, a re-run of the
/// pipeline over an unchanged remote dataset reproduces its output
/// exactly.
pub proof fn lemma_select_idempotent(s: Seq<PlaylistView>)
    ensures
        spec_select(spec_select(s)) == spec_select(s),
{
    let t = spec_select(s);
    lemma_select_props(s);
    assert(Seq::<PlaylistView>::empty() + t =~= t);
    lemma_select_from_fixed(Seq::empty(), t);
}

/// Inserts `p` into the identifier-sorted `out` at its position.
fn insert_playlist(out: &mut Vec<Playlist>, p: Playlist)
    requires
        sorted_strict(old(out).deep_view()),
        !has_id(old(out).deep_view(), p@.id),
    ensures
        final(out).deep_view() == spec_insert(old(out).deep_view(), p@),
{
    let ghost s = out.deep_view();
    let mut k: usize = 0;
    #[verifier::loop_isolation(false)]
    while k < out.len() && str_lt(out[k].id.as_str(), p.id.as_str())
        invariant
            k <= out.len(),
            forall|j: int| 0 <= j < k ==> lex_lt(#[trigger] s[j].id, p@.id),
        decreases out.len() - k,
    {
        k = k + 1;
    }
    proof {
        if k < out.len() {
            assert(!lex_lt(s[k as int].id, p@.id));
        }
        lemma_insert_pos_unique(s, p@.id, k as int);
    }
    out.insert(k, p);
    proof {
        assert(out.deep_view() =~= s.take(k as int) + seq![p@] + s.skip(k as int));
    }
}

/// Selects the archive's playlists out of a fetched collection: those
/// whose title meets the criterion, ordered ascending by identifier, one
/// per identifier with the first fetched record kept.
pub fn select_recipe_playlists(ps: Vec<Playlist>) -> (r: Vec<Playlist>)
    ensures
        r.deep_view() == spec_select(ps.deep_view()),
        sorted_strict(r.deep_view()),
        all_selected(r.deep_view()),
{
    let ghost orig = ps.deep_view();
    let mut rem = ps;
    let mut out: Vec<Playlist> = Vec::new();
    proof {
        assert(orig.take(0) =~= Seq::<PlaylistView>::empty());
        assert(out.deep_view() =~= Seq::<PlaylistView>::empty());
    }
    #[verifier::loop_isolation(false)]
    loop
        invariant
            rem@.len() <= orig.len(),
            rem.deep_view() =~= orig.skip(orig.len() - rem@.len()),
            out.deep_view() == spec_select(orig.take(orig.len() - rem@.len())),
            sorted_strict(out.deep_view()),
            all_selected(out.deep_view()),
        decreases rem@.len(),
    {
        let ghost done = orig.len() - rem@.len();
        if rem.is_empty() {
            proof {
                assert(orig.take(done) =~= orig);
            }
            return out;
        }
        let ghost rem0 = rem@;
        let ghost dv0 = rem.deep_view();
        let p = rem.remove(0);
        proof {
            assert(p == rem0[0]);
            assert(p.deep_view() == dv0[0]);
            assert(p.deep_view() == orig[done]);
            assert(forall|i: int| 0 <= i < rem@.len() ==> #[trigger] rem@[i] == rem0[i + 1]);
            assert(forall|i: int|
                0 <= i < rem@.len() ==> #[trigger] rem.deep_view()[i] == dv0[i + 1]);
            assert(rem.deep_view() =~= orig.skip(done + 1));
            assert(orig.take(done + 1) =~= orig.take(done).push(orig[done]));
            lemma_select_from_snoc(Seq::empty(), orig.take(done), orig[done]);
        }
        let selected = title_selected(p.title.as_str());
        if selected {
            // Scan for a record already carrying this identifier; in a
            // strictly sorted accumulator it can only sit at the
            // identifier's own position.
            let ghost acc = out.deep_view();
            let mut k: usize = 0;
            #[verifier::loop_isolation(false)]
            while k < out.len() && str_lt(out[k].id.as_str(), p.id.as_str())
                invariant
                    k <= out.len(),
                    forall|j: int| 0 <= j < k ==> lex_lt(#[trigger] acc[j].id, p@.id),
                decreases out.len() - k,
            {
                k = k + 1;
            }
            let duplicate = k < out.len() && out[k].id == p.id;
            proof {
                if duplicate {
                    assert(acc[k as int] == out@[k as int].deep_view());
                    assert(acc[k as int].id == p@.id);
                    assert(has_id(acc, p@.id));
                } else {
                    assert(!has_id(acc, p@.id)) by {
                        if has_id(acc, p@.id) {
                            let i = choose|i: int| 0 <= i < acc.len() && acc[i].id == p@.id;
                            lemma_lex_lt_irrefl(p@.id);
                            if i < k {
                                assert(lex_lt(acc[i].id, p@.id));
                            } else if i > k {
                                assert(k < acc.len());
                                assert(!lex_lt(acc[k as int].id, p@.id));
                                assert(lex_lt(acc[k as int].id, acc[i].id));
                            } else {
                                assert(k < acc.len() && acc[k as int].id == p@.id);
                            }
                        }
                    }
                }
            }
            if !duplicate {
                insert_playlist(&mut out, p);
                proof {
                    lemma_step_props(acc, orig[done]);
                }
            }
        }
        proof {
            assert(out.deep_view() == spec_select(orig.take(done + 1)));
        }
    }
}

} // verus!
