use vstd::prelude::*;
use crate::migration::{up_contents, version_of, FolderEntry};
use crate::runner::batch_outcome;
use crate::store::distinct_seqs;

verus! {

/// After a fully successful run, every version the batch recorded and every
/// version already applied lies in `applied_after`; such a batch, run again,
/// applies nothing.
proof fn lemma_batch_superset(
    kept: Seq<FolderEntry>,
    applied: Seq<Seq<char>>,
    failing: Seq<Seq<char>>,
    applied_after: Seq<Seq<char>>,
)
    requires
        batch_outcome(kept, applied, failing).2 is None,
        forall|x: Seq<char>| #[trigger] applied.contains(x) ==> applied_after.contains(x),
        forall|x: Seq<char>|
            #[trigger] batch_outcome(kept, applied, failing).0.contains(x)
                ==> applied_after.contains(x),
    ensures
        batch_outcome(kept, applied_after, failing) == (
            Seq::<Seq<char>>::empty(),
            Seq::<Seq<char>>::empty(),
            Option::<Seq<char>>::None,
        ),
    decreases kept.len(),
{
    if kept.len() > 0 {
        let f = kept[0];
        let v = version_of(f.name@);
        let b = batch_outcome(kept, applied, failing);
        if applied.contains(v) {
            assert(applied_after.contains(v));
            lemma_batch_superset(kept.skip(1), applied, failing, applied_after);
        } else {
            let rest = batch_outcome(kept.skip(1), applied, failing);
            assert(b.0 == seq![v] + rest.0);
            assert(b.0[0] == v);
            assert(b.0.contains(v));
            assert(applied_after.contains(v));
            assert forall|x: Seq<char>| #[trigger] rest.0.contains(x) implies
                applied_after.contains(x) by {
                let w = choose|w: int| 0 <= w < rest.0.len() && rest.0[w] == x;
                assert(b.0[w + 1] == x);
                assert(b.0.contains(x));
            }
            lemma_batch_superset(kept.skip(1), applied, failing, applied_after);
        }
    }
}

/// Idempotence: when a pending run over the enumerated units succeeds, a
/// second run with the same units and the grown applied set performs zero
/// applies and leaves the tracking table unchanged.
pub proof fn lemma_run_pending_idempotent(
    kept: Seq<FolderEntry>,
    applied: Seq<Seq<char>>,
    failing: Seq<Seq<char>>,
)
    requires
        batch_outcome(kept, applied, failing).2 is None,
    ensures
        batch_outcome(kept, applied + batch_outcome(kept, applied, failing).0, failing) == (
            Seq::<Seq<char>>::empty(),
            Seq::<Seq<char>>::empty(),
            Option::<Seq<char>>::None,
        ),
{
    let b = batch_outcome(kept, applied, failing);
    let applied_after = applied + b.0;
    assert forall|x: Seq<char>| #[trigger] applied.contains(x) implies applied_after.contains(
        x,
    ) by {
        let w = choose|w: int| 0 <= w < applied.len() && applied[w] == x;
        assert(applied_after[w] == x);
    }
    assert forall|x: Seq<char>| #[trigger] b.0.contains(x) implies applied_after.contains(x) by {
        let w = choose|w: int| 0 <= w < b.0.len() && b.0[w] == x;
        assert(applied_after[w + applied.len()] == x);
    }
    lemma_batch_superset(kept, applied, failing, applied_after);
}

/// A run over units none of which is applied and none of which fails
/// commits exactly one transaction and one tracking row per unit, in
/// enumeration order.
pub proof fn lemma_run_pending_applies_all(
    kept: Seq<FolderEntry>,
    applied: Seq<Seq<char>>,
    failing: Seq<Seq<char>>,
)
    requires
        forall|k: int|
            0 <= k < kept.len() ==> !applied.contains(version_of(#[trigger] kept[k].name@)),
        forall|k: int|
            0 <= k < kept.len() ==> !failing.contains(up_contents(#[trigger] kept[k].files@)),
    ensures
        batch_outcome(kept, applied, failing) == (
            kept.map_values(|f: FolderEntry| version_of(f.name@)),
            kept.map_values(|f: FolderEntry| up_contents(f.files@)),
            Option::<Seq<char>>::None,
        ),
    decreases kept.len(),
{
    let vs = kept.map_values(|f: FolderEntry| version_of(f.name@));
    let us = kept.map_values(|f: FolderEntry| up_contents(f.files@));
    if kept.len() == 0 {
        assert(vs =~= Seq::<Seq<char>>::empty());
        assert(us =~= Seq::<Seq<char>>::empty());
    } else {
        let f = kept[0];
        assert(!applied.contains(version_of(f.name@)));
        assert(!failing.contains(up_contents(f.files@)));
        assert forall|k: int| 0 <= k < kept.skip(1).len() implies !applied.contains(
            version_of(#[trigger] kept.skip(1)[k].name@),
        ) && !failing.contains(up_contents(kept.skip(1)[k].files@)) by {
            assert(kept.skip(1)[k] == kept[k + 1]);
        }
        lemma_run_pending_applies_all(kept.skip(1), applied, failing);
        let rest_vs = kept.skip(1).map_values(|g: FolderEntry| version_of(g.name@));
        let rest_us = kept.skip(1).map_values(|g: FolderEntry| up_contents(g.files@));
        assert forall|k: int| 0 <= k < vs.len() implies vs[k] == (seq![version_of(f.name@)]
            + rest_vs)[k] by {
            if k > 0 {
                assert(kept.skip(1)[k - 1] == kept[k]);
                assert(rest_vs[k - 1] == version_of(kept[k].name@));
            }
        }
        assert(vs =~= seq![version_of(f.name@)] + rest_vs);
        assert forall|k: int| 0 <= k < us.len() implies us[k] == (seq![up_contents(f.files@)]
            + rest_us)[k] by {
            if k > 0 {
                assert(kept.skip(1)[k - 1] == kept[k]);
                assert(rest_us[k - 1] == up_contents(kept[k].files@));
            }
        }
        assert(us =~= seq![up_contents(f.files@)] + rest_us);
    }
}

/// A batch over units that are all already applied performs nothing.
proof fn lemma_all_applied(kept: Seq<FolderEntry>, applied: Seq<Seq<char>>, failing: Seq<Seq<char>>)
    requires
        forall|k: int|
            0 <= k < kept.len() ==> applied.contains(version_of(#[trigger] kept[k].name@)),
    ensures
        batch_outcome(kept, applied, failing) == (
            Seq::<Seq<char>>::empty(),
            Seq::<Seq<char>>::empty(),
            Option::<Seq<char>>::None,
        ),
    decreases kept.len(),
{
    if kept.len() > 0 {
        assert forall|k: int| 0 <= k < kept.skip(1).len() implies applied.contains(
            version_of(#[trigger] kept.skip(1)[k].name@),
        ) by {
            assert(kept.skip(1)[k] == kept[k + 1]);
        }
        lemma_all_applied(kept.skip(1), applied, failing);
    }
}

/// A batch over units of which exactly one, at index `k`, is pending (and
/// does not fail) applies exactly that unit.
proof fn lemma_single_pending(
    kept: Seq<FolderEntry>,
    applied: Seq<Seq<char>>,
    failing: Seq<Seq<char>>,
    k: int,
)
    requires
        0 <= k < kept.len(),
        forall|j: int|
            0 <= j < kept.len() && j != k ==> applied.contains(
                version_of(#[trigger] kept[j].name@),
            ),
        !applied.contains(version_of(kept[k].name@)),
        !failing.contains(up_contents(kept[k].files@)),
    ensures
        batch_outcome(kept, applied, failing) == (
            seq![version_of(kept[k].name@)],
            seq![up_contents(kept[k].files@)],
            Option::<Seq<char>>::None,
        ),
    decreases kept.len(),
{
    let f = kept[0];
    if k == 0 {
        assert forall|j: int| 0 <= j < kept.skip(1).len() implies applied.contains(
            version_of(#[trigger] kept.skip(1)[j].name@),
        ) by {
            assert(kept.skip(1)[j] == kept[j + 1]);
        }
        lemma_all_applied(kept.skip(1), applied, failing);
        assert(seq![version_of(f.name@)] + Seq::<Seq<char>>::empty() =~= seq![
            version_of(f.name@),
        ]);
        assert(seq![up_contents(f.files@)] + Seq::<Seq<char>>::empty() =~= seq![
            up_contents(f.files@),
        ]);
    } else {
        assert(applied.contains(version_of(f.name@)));
        assert forall|j: int|
            0 <= j < kept.skip(1).len() && j != k - 1 implies applied.contains(
            version_of(#[trigger] kept.skip(1)[j].name@),
        ) by {
            assert(kept.skip(1)[j] == kept[j + 1]);
        }
        assert(kept.skip(1)[k - 1] == kept[k]);
        lemma_single_pending(kept.skip(1), applied, failing, k - 1);
    }
}

/// Reverting the latest migration removes exactly the row carrying the
/// greatest recorded version and leaves the others; a pending run that
/// follows re-applies exactly that one version and no others.
pub proof fn lemma_revert_latest_then_pending(
    kept: Seq<FolderEntry>,
    applied: Seq<Seq<char>>,
    failing: Seq<Seq<char>>,
    k: int,
)
    requires
        distinct_seqs(applied),
        applied.len() > 0,
        0 <= k < kept.len(),
        version_of(kept[k].name@) == crate::store::lex_max(applied),
        forall|j: int|
            0 <= j < kept.len() ==> applied.contains(version_of(#[trigger] kept[j].name@)),
        forall|i: int, j: int|
            0 <= i < j < kept.len() ==> version_of(kept[i].name@) != version_of(kept[j].name@),
        !failing.contains(up_contents(kept[k].files@)),
    ensures
        ({
            let latest = crate::store::lex_max(applied);
            let remaining = applied.remove_value(latest);
            &&& remaining.len() == applied.len() - 1
            &&& !remaining.contains(latest)
            &&& (forall|x: Seq<char>|
                x != latest ==> (remaining.contains(x) <==> applied.contains(x)))
            &&& batch_outcome(kept, remaining, failing) == (
                seq![latest],
                seq![up_contents(kept[k].files@)],
                Option::<Seq<char>>::None,
            )
        }),
{
    let latest = crate::store::lex_max(applied);
    let remaining = applied.remove_value(latest);
    crate::store::lemma_lex_max_properties(applied);
    assert(applied.contains(latest));
    applied.index_of_first_ensures(latest);
    let idx = applied.index_of_first(latest)->Some_0;
    applied.remove_ensures(idx);
    assert(remaining == applied.remove(idx));
    assert(remaining.len() == applied.len() - 1);
    assert forall|w: int| 0 <= w < remaining.len() implies remaining[w] == (if w < idx {
        applied[w]
    } else {
        applied[w + 1]
    }) by {
        assert(remaining[w] == applied.remove(idx)[w]);
    }
    assert(!remaining.contains(latest)) by {
        if remaining.contains(latest) {
            let w = choose|w: int| 0 <= w < remaining.len() && remaining[w] == latest;
            if w < idx {
                assert(applied[w] == applied[idx]);
            } else {
                assert(applied[w + 1] == applied[idx]);
            }
        }
    }
    assert forall|x: Seq<char>| x != latest implies (remaining.contains(x)
        <==> applied.contains(x)) by {
        if remaining.contains(x) {
            let w = choose|w: int| 0 <= w < remaining.len() && remaining[w] == x;
            if w < idx {
                assert(applied[w] == x);
            } else {
                assert(applied[w + 1] == x);
            }
            assert(applied.contains(x));
        }
        if applied.contains(x) {
            let w = choose|w: int| 0 <= w < applied.len() && applied[w] == x;
            assert(w != idx);
            if w < idx {
                assert(remaining[w] == x);
            } else {
                assert(remaining[w - 1] == x);
            }
            assert(remaining.contains(x));
        }
    }
    assert forall|j: int| 0 <= j < kept.len() && j != k implies remaining.contains(
        version_of(#[trigger] kept[j].name@),
    ) by {
        assert(applied.contains(version_of(kept[j].name@)));
        if j < k {
            assert(version_of(kept[j].name@) != version_of(kept[k].name@));
        } else {
            assert(version_of(kept[k].name@) != version_of(kept[j].name@));
        }
    }
    lemma_single_pending(kept, remaining, failing, k);
}

} // verus!
