//! The per-world block-identifier map: an append-only assignment from
//! 16-bit ids to block-type slugs, validated against the persisted rows of a
//! world on every mount.
use vstd::prelude::*;

use crate::blocks::BlockIndexType;

verus! {

/// One persisted row of the block-id table.
pub struct BlockId {
    pub block_id: BlockIndexType,
    pub block_slug: String,
}

/// A world opened with an incompatible block registry.
pub enum BlockIdError {
    /// A persisted slug is mapped to a different id by the desired map.
    Mismatch { slug: String, persisted_id: BlockIndexType, desired_id: BlockIndexType },
    /// A persisted slug does not occur in the desired map at all.
    Missing { slug: String },
}

/// The model of the persisted rows: `(id, slug)` pairs.
pub open spec fn rows_view(rows: Seq<BlockId>) -> Seq<(BlockIndexType, Seq<char>)> {
    rows.map_values(|r: BlockId| (r.block_id, r.block_slug@))
}

/// The model of a desired map: `(id, slug)` pairs in ascending id order.
pub open spec fn pair_views(pairs: Seq<(BlockIndexType, String)>) -> Seq<
    (BlockIndexType, Seq<char>),
> {
    pairs.map_values(|p: (BlockIndexType, String)| (p.0, p.1@))
}

/// Some pair of `pv` carries this slug.
pub open spec fn has_slug(pv: Seq<(BlockIndexType, Seq<char>)>, slug: Seq<char>) -> bool {
    exists|t: int| 0 <= t < pv.len() && #[trigger] pv[t].1 == slug
}

/// The desired map agrees with one persisted row: it contains the row's
/// slug, and every desired pair carrying that slug carries the row's id.
pub open spec fn row_compatible(
    pv: Seq<(BlockIndexType, Seq<char>)>,
    row: (BlockIndexType, Seq<char>),
) -> bool {
    has_slug(pv, row.1) && forall|j: int|
        0 <= j < pv.len() && #[trigger] pv[j].1 == row.1 ==> pv[j].0 == row.0
}

/// The desired map agrees with every persisted row.
pub open spec fn map_compatible(
    pv: Seq<(BlockIndexType, Seq<char>)>,
    rv: Seq<(BlockIndexType, Seq<char>)>,
) -> bool {
    forall|t: int| 0 <= t < rv.len() ==> row_compatible(pv, #[trigger] rv[t])
}

/// The desired pairs whose slug is not persisted yet, in map order: exactly
/// what a successful validation inserts.
#[verifier::opaque]
pub open spec fn insertable(
    pv: Seq<(BlockIndexType, Seq<char>)>,
    rv: Seq<(BlockIndexType, Seq<char>)>,
) -> Seq<(BlockIndexType, Seq<char>)>
    decreases pv,
{
    if pv.len() == 0 {
        Seq::empty()
    } else {
        let rest = insertable(pv.drop_last(), rv);
        if !has_slug(rv, pv.last().1) {
            rest.push(pv.last())
        } else {
            rest
        }
    }
}

proof fn lemma_insertable_take_step(
    pv: Seq<(BlockIndexType, Seq<char>)>,
    rv: Seq<(BlockIndexType, Seq<char>)>,
    j: int,
)
    requires
        0 <= j < pv.len(),
    ensures
        insertable(pv.take(j + 1), rv) == if !has_slug(rv, pv[j].1) {
            insertable(pv.take(j), rv).push(pv[j])
        } else {
            insertable(pv.take(j), rv)
        },
{
    reveal(insertable);
    assert(pv.take(j + 1).drop_last() =~= pv.take(j));
    assert(pv.take(j + 1).last() == pv[j]);
}

proof fn lemma_insertable_elements(
    pv: Seq<(BlockIndexType, Seq<char>)>,
    rv: Seq<(BlockIndexType, Seq<char>)>,
)
    ensures
        forall|t: int|
            0 <= t < insertable(pv, rv).len() ==> exists|j: int|
                0 <= j < pv.len() && pv[j] == #[trigger] insertable(pv, rv)[t],
    decreases pv,
{
    reveal(insertable);
    if pv.len() > 0 {
        lemma_insertable_elements(pv.drop_last(), rv);
        let rest = insertable(pv.drop_last(), rv);
        let whole = insertable(pv, rv);
        assert forall|t: int|
            0 <= t < whole.len() implies exists|j: int|
            0 <= j < pv.len() && pv[j] == #[trigger] whole[t] by {
            if t < rest.len() {
                assert(whole[t] == rest[t]);
                let j0 = choose|j: int| 0 <= j < pv.drop_last().len() && pv.drop_last()[j]
                    == rest[t];
                assert(pv[j0] == whole[t]);
            } else {
                assert(whole[t] == pv.last());
                assert(pv[pv.len() - 1] == whole[t]);
            }
        };
    }
}

proof fn lemma_insertable_complete(
    pv: Seq<(BlockIndexType, Seq<char>)>,
    rv: Seq<(BlockIndexType, Seq<char>)>,
)
    ensures
        forall|j: int|
            0 <= j < pv.len() && !#[trigger] has_slug(rv, pv[j].1) ==> exists|t: int|
                0 <= t < insertable(pv, rv).len() && insertable(pv, rv)[t] == pv[j],
    decreases pv,
{
    reveal(insertable);
    if pv.len() > 0 {
        lemma_insertable_complete(pv.drop_last(), rv);
        let rest = insertable(pv.drop_last(), rv);
        let whole = insertable(pv, rv);
        assert forall|j: int|
            0 <= j < pv.len() && !#[trigger] has_slug(rv, pv[j].1) implies exists|t: int|
            0 <= t < whole.len() && whole[t] == pv[j] by {
            if j < pv.len() - 1 {
                assert(pv.drop_last()[j] == pv[j]);
                let t0 = choose|t: int| 0 <= t < rest.len() && rest[t] == pv.drop_last()[j];
                assert(whole[t0] == pv[j]);
            } else {
                assert(whole[whole.len() - 1] == pv[j]);
            }
        };
    }
}

proof fn lemma_one_insert_compatible(
    pv: Seq<(BlockIndexType, Seq<char>)>,
    row: (BlockIndexType, Seq<char>),
    j0: int,
)
    requires
        forall|j1: int, j2: int|
            0 <= j1 < j2 < pv.len() ==> #[trigger] pv[j1].1 != #[trigger] pv[j2].1,
        0 <= j0 < pv.len(),
        pv[j0] == row,
    ensures
        row_compatible(pv, row),
{
    assert(pv[j0].1 == row.1);
    assert forall|j: int|
        0 <= j < pv.len() && #[trigger] pv[j].1 == row.1 implies pv[j].0 == row.0 by {
        if j < j0 {
            assert(pv[j].1 != pv[j0].1);
        } else if j > j0 {
            assert(pv[j0].1 != pv[j].1);
        }
    };
}

#[verifier::spinoff_prover]
proof fn lemma_grown_compatible(
    pv: Seq<(BlockIndexType, Seq<char>)>,
    rv: Seq<(BlockIndexType, Seq<char>)>,
)
    requires
        map_compatible(pv, rv),
        forall|j1: int, j2: int|
            0 <= j1 < j2 < pv.len() ==> #[trigger] pv[j1].1 != #[trigger] pv[j2].1,
    ensures
        map_compatible(pv, rv + insertable(pv, rv)),
{
    let ins = insertable(pv, rv);
    let grown = rv + ins;
    lemma_insertable_elements(pv, rv);
    assert forall|t: int| 0 <= t < grown.len() implies row_compatible(pv, #[trigger] grown[t]) by {
        if t < rv.len() {
            assert(grown[t] == rv[t]);
        } else {
            let row = grown[t];
            assert(row == ins[t - rv.len()]);
            let j0 = choose|j: int| 0 <= j < pv.len() && pv[j] == row;
            lemma_one_insert_compatible(pv, row, j0);
        }
    };
}

proof fn lemma_grown_has_all(
    pv: Seq<(BlockIndexType, Seq<char>)>,
    rv: Seq<(BlockIndexType, Seq<char>)>,
)
    ensures
        forall|j: int| 0 <= j < pv.len() ==> has_slug(rv + insertable(pv, rv), #[trigger] pv[j].1),
{
    let ins = insertable(pv, rv);
    let grown = rv + ins;
    lemma_insertable_complete(pv, rv);
    assert forall|j: int| 0 <= j < pv.len() implies has_slug(grown, #[trigger] pv[j].1) by {
        if has_slug(rv, pv[j].1) {
            let t0 = choose|t: int| 0 <= t < rv.len() && #[trigger] rv[t].1 == pv[j].1;
            assert(grown[t0].1 == pv[j].1);
        } else {
            let t0 = choose|t: int| 0 <= t < ins.len() && ins[t] == pv[j];
            assert(grown[rv.len() + t0].1 == pv[j].1);
        }
    };
}

/// Validation is idempotent: after a successful validation has inserted the
/// missing pairs, a second validation with the same map (one id per slug)
/// succeeds and has nothing left to insert.
pub proof fn lemma_validate_idempotent(
    pv: Seq<(BlockIndexType, Seq<char>)>,
    rv: Seq<(BlockIndexType, Seq<char>)>,
)
    requires
        map_compatible(pv, rv),
        forall|j1: int, j2: int|
            0 <= j1 < j2 < pv.len() ==> #[trigger] pv[j1].1 != #[trigger] pv[j2].1,
    ensures
        map_compatible(pv, rv + insertable(pv, rv)),
        insertable(pv, rv + insertable(pv, rv)) == Seq::<(BlockIndexType, Seq<char>)>::empty(),
{
    lemma_grown_compatible(pv, rv);
    lemma_grown_has_all(pv, rv);
    lemma_insertable_all_present(pv, rv + insertable(pv, rv));
}

proof fn lemma_insertable_all_present(
    pv: Seq<(BlockIndexType, Seq<char>)>,
    rv: Seq<(BlockIndexType, Seq<char>)>,
)
    requires
        forall|j: int| 0 <= j < pv.len() ==> has_slug(rv, #[trigger] pv[j].1),
    ensures
        insertable(pv, rv) == Seq::<(BlockIndexType, Seq<char>)>::empty(),
    decreases pv,
{
    reveal(insertable);
    if pv.len() > 0 {
        assert(pv[pv.len() - 1] == pv.last());
        assert forall|j: int|
            0 <= j < pv.drop_last().len() implies has_slug(rv, #[trigger] pv.drop_last()[j].1) by {
            assert(pv.drop_last()[j] == pv[j]);
        };
        lemma_insertable_all_present(pv.drop_last(), rv);
    }
}

/// Checks the persisted rows against a desired map and computes the pairs a
/// successful validation must insert. Pure: the storage layer feeds it the
/// rows it read and performs the inserts it returns.
pub fn check_block_ids(
    persisted: &Vec<BlockId>,
    desired: &Vec<(BlockIndexType, String)>,
) -> (r: Result<Vec<(BlockIndexType, String)>, BlockIdError>)
    ensures
        (r is Ok) == map_compatible(pair_views(desired@), rows_view(persisted@)),
        r matches Ok(ins) ==> pair_views(ins@) == insertable(
            pair_views(desired@),
            rows_view(persisted@),
        ),
        r matches Err(e) ==> match e {
            BlockIdError::Mismatch { slug, persisted_id, desired_id } => (exists|t: int|
                0 <= t < persisted@.len() && #[trigger] persisted@[t].block_id == persisted_id
                    && persisted@[t].block_slug@ == slug@) && (exists|j: int|
                0 <= j < desired@.len() && #[trigger] desired@[j].0 == desired_id
                    && desired@[j].1@ == slug@) && persisted_id != desired_id,
            BlockIdError::Missing { slug } => (exists|t: int|
                0 <= t < persisted@.len() && #[trigger] persisted@[t].block_slug@ == slug@)
                && !has_slug(pair_views(desired@), slug@),
        },
{
    proof {
        reveal(insertable);
    }
    let ghost pv = pair_views(desired@);
    let ghost rv = rows_view(persisted@);
    let mut t: usize = 0;
    while t < persisted.len()
        invariant
            pv == pair_views(desired@),
            rv == rows_view(persisted@),
            t <= persisted@.len(),
            forall|t2: int| 0 <= t2 < t ==> row_compatible(pv, #[trigger] rv[t2]),
        decreases persisted@.len() - t,
    {
        let row = &persisted[t];
        let mut found = false;
        let mut j: usize = 0;
        while j < desired.len()
            invariant
                pv == pair_views(desired@),
                rv == rows_view(persisted@),
                t < persisted@.len(),
                row == &persisted@[t as int],
                j <= desired@.len(),
                found == exists|j2: int|
                    0 <= j2 < j && #[trigger] pv[j2].1 == row.block_slug@,
                forall|j2: int|
                    0 <= j2 < j && #[trigger] pv[j2].1 == row.block_slug@ ==> pv[j2].0
                        == row.block_id,
            decreases desired@.len() - j,
        {
            let pair = &desired[j];
            proof {
                assert(pv[j as int] == (desired@[j as int].0, desired@[j as int].1@));
                assert(rv[t as int] == (persisted@[t as int].block_id, persisted@[
                    t as int
                ].block_slug@));
            }
            let slug_matches: bool = pair.1 == row.block_slug;
            proof {
                assert(slug_matches == (pv[j as int].1 == row.block_slug@));
            }
            if slug_matches {
                if pair.0 != row.block_id {
                    proof {
                        assert(pv[j as int].1 == rv[t as int].1 && pv[j as int].0 != rv[
                            t as int
                        ].0);
                        assert(!row_compatible(pv, rv[t as int]));
                        assert(!map_compatible(pv, rv));
                    }
                    return Err(
                        BlockIdError::Mismatch {
                            slug: row.block_slug.clone(),
                            persisted_id: row.block_id,
                            desired_id: pair.0,
                        },
                    );
                }
                found = true;
                proof {
                    assert(pv[j as int].1 == row.block_slug@);
                }
            }
            j = j + 1;
        }
        if !found {
            proof {
                assert(rv[t as int] == (persisted@[t as int].block_id, persisted@[
                    t as int
                ].block_slug@));
                assert(!has_slug(pv, rv[t as int].1));
                assert(!row_compatible(pv, rv[t as int]));
                assert(!map_compatible(pv, rv));
            }
            return Err(BlockIdError::Missing { slug: row.block_slug.clone() });
        }
        proof {
            assert(rv[t as int] == (persisted@[t as int].block_id, persisted@[
                t as int
            ].block_slug@));
            assert(row_compatible(pv, rv[t as int]));
        }
        t = t + 1;
    }
    let mut to_insert: Vec<(BlockIndexType, String)> = Vec::new();
    let mut j: usize = 0;
    while j < desired.len()
        invariant
            pv == pair_views(desired@),
            rv == rows_view(persisted@),
            j <= desired@.len(),
            map_compatible(pv, rv),
            pair_views(to_insert@) == insertable(pv.take(j as int), rv),
        decreases desired@.len() - j,
    {
        let pair = &desired[j];
        proof {
            assert(pv[j as int] == (desired@[j as int].0, desired@[j as int].1@));
        }
        let mut present = false;
        let mut t2: usize = 0;
        while t2 < persisted.len()
            invariant
                rv == rows_view(persisted@),
                t2 <= persisted@.len(),
                j < desired@.len(),
                pair == &desired@[j as int],
                present == exists|t3: int| 0 <= t3 < t2 && #[trigger] rv[t3].1 == pair.1@,
            decreases persisted@.len() - t2,
        {
            proof {
                assert(rv[t2 as int] == (persisted@[t2 as int].block_id, persisted@[
                    t2 as int
                ].block_slug@));
            }
            let here: bool = persisted[t2].block_slug == pair.1;
            proof {
                assert(here == (rv[t2 as int].1 == pair.1@));
            }
            if here {
                present = true;
            }
            t2 = t2 + 1;
        }
        proof {
            assert(present == has_slug(rv, pv[j as int].1));
            lemma_insertable_take_step(pv, rv, j as int);
        }
        if !present {
            to_insert.push((pair.0, pair.1.clone()));
            proof {
                assert(pair_views(to_insert@) =~= pair_views(to_insert@.drop_last()).push(
                    (pv[j as int].0, pv[j as int].1),
                ));
            }
        }
        j = j + 1;
    }
    proof {
        assert(pv.take(desired@.len() as int) =~= pv);
    }
    Ok(to_insert)
}

} // verus!
