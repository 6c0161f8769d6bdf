//! The engine's cross-cutting guarantees, stated and proved once.
//!
//! Each law here relates several operations of the engine; the guarantees
//! that concern a single operation stand in that operation's own
//! contract (a failed load or save leaves the engine untouched; an edit
//! writes the parsed value or the default and owes a recalculation).

use vstd::prelude::*;

use crate::engine::{collection_refreshed, edited_scalar, Document, Engine, ModelView};
use crate::model::{
    edited_count, lemma_collection_wf, lemma_present_pairs_lookup, present_pairs,
    Direction, DIRECTION_COUNT,
};
use crate::text::{count_parse, scalar_parse};

verus! {

/// Parse-default law, scalar form: a field text that fails to parse
/// writes the field's configured default into the model, never the prior
/// value.  `edit_scalar` writes `edited_scalar(text, default)` and owes a
/// recalculation, so this pins the written value on every unparseable
/// text.
pub proof fn lemma_scalar_parse_default(t: Seq<char>, default: i64)
    requires
        scalar_parse(t) is None,
    ensures
        edited_scalar(t, default) == default,
{
}

/// Parse-default law, count form: a count field text that fails to parse
/// writes the count's default of zero.  `edit_count` and `edit_thruster`
/// write `Some(edited_count(text))`, so this pins the written count on
/// every unparseable text.
pub proof fn lemma_count_parse_default(t: Seq<char>)
    requires
        count_parse(t) is None,
    ensures
        edited_count(t) == 0,
{
}

/// Recompute-after-edit law: whenever the engine is settled — every owed
/// recalculation completed — the displayed outputs are attributed to the
/// model exactly as it stands now, never to a stale state.  Every edit
/// leaves the engine unsettled, and `complete_recalc` attributes the new
/// frame to the model as it stood at that moment, so no edit's
/// recomputation can be skipped or reordered without `wf` breaking.
pub proof fn lemma_sink_fresh(e: Engine)
    requires
        e.wf(),
        !e.pending_spec(),
    ensures
        e.sink_model_spec() == Some(e.model_view()),
        e.sink_spec() is Some,
{
}

/// Single-writer law: one displayed frame is attributable to exactly one
/// model snapshot, and for a settled engine that snapshot is the current
/// model — no frame can mix two partially mutated states, because the
/// attribution is a single `ModelView` fixed when the frame arrived.
pub proof fn lemma_single_attribution(e: Engine, m1: ModelView, m2: ModelView)
    requires
        e.wf(),
        !e.pending_spec(),
        e.sink_model_spec() == Some(m1),
        e.sink_model_spec() == Some(m2),
    ensures
        m1 == m2,
        m1 == e.model_view(),
{
}

/// Save round-trip law: exporting a reachable model and loading the
/// export back yields the same model view, so the calculator is handed
/// the same input and produces the same derived outputs.  `d` is what
/// `export` produced from `e1` (its contract), and `e2` stands in the
/// relation `load_apply` guarantees after `Ok(d)`.
pub proof fn lemma_save_load_round_trip(e1: Engine, d: Document, e2: Engine)
    requires
        e1.wf(),
        e2.wf(),
        // What export guarantees of `d`.
        d.scalars@ == e1.scalars_seq(),
        d.groups@.len() == e1.num_groups(),
        forall|g: int|
            0 <= g < e1.num_groups() ==> (#[trigger] d.groups@[g])@ == present_pairs(
                e1.groups_seq()[g].ids(),
                e1.groups_seq()[g].counts_seq(),
            ),
        d.thrusters@.len() == DIRECTION_COUNT,
        forall|dd: int|
            0 <= dd < DIRECTION_COUNT ==> (#[trigger] d.thrusters@[dd])@ == present_pairs(
                e1.thrusters_seq()[dd].ids(),
                e1.thrusters_seq()[dd].counts_seq(),
            ),
        // What load_apply guarantees of `e2` after `Ok(d)`.
        e2.scalars_seq() == d.scalars@,
        e2.num_groups() == e1.num_groups(),
        forall|g: int|
            0 <= g < e1.num_groups() ==> (#[trigger] e2.groups_seq()[g]).ids()
                == e1.groups_seq()[g].ids(),
        forall|g: int, j: int|
            0 <= g < e1.num_groups() && 0 <= j < e1.groups_seq()[g].len_spec()
                ==> #[trigger] collection_refreshed(e2.groups_seq()[g], d.groups@[g]@, j),
        forall|dd: int|
            0 <= dd < DIRECTION_COUNT ==> (#[trigger] e2.thrusters_seq()[dd]).ids()
                == e1.thrusters_seq()[dd].ids(),
        forall|dd: int, j: int|
            0 <= dd < DIRECTION_COUNT && 0 <= j < e1.thrusters_seq()[dd].len_spec()
                ==> #[trigger] collection_refreshed(e2.thrusters_seq()[dd], d.thrusters@[dd]@, j),
    ensures
        e2.model_view() == e1.model_view(),
{
    assert forall|g: int| 0 <= g < e1.num_groups() implies (#[trigger] e2.groups_seq()[
        g
    ]).counts_seq() =~= e1.groups_seq()[g].counts_seq() by {
        lemma_collection_wf(e1.groups_seq()[g]);
        lemma_collection_wf(e2.groups_seq()[g]);
        assert forall|j: int| 0 <= j < e1.groups_seq()[g].len_spec() implies e2.groups_seq()[
            g
        ].counts_seq()[j] == e1.groups_seq()[g].counts_seq()[j] by {
            lemma_present_pairs_lookup(
                e1.groups_seq()[g].ids(),
                e1.groups_seq()[g].counts_seq(),
                j,
            );
            assert(collection_refreshed(e2.groups_seq()[g], d.groups@[g]@, j));
        }
    }
    assert forall|dd: int| 0 <= dd < DIRECTION_COUNT implies (#[trigger] e2.thrusters_seq()[
        dd
    ]).counts_seq() =~= e1.thrusters_seq()[dd].counts_seq() by {
        lemma_collection_wf(e1.thrusters_seq()[dd]);
        lemma_collection_wf(e2.thrusters_seq()[dd]);
        assert forall|j: int| 0 <= j < e1.thrusters_seq()[dd].len_spec() implies e2.thrusters_seq()[
            dd
        ].counts_seq()[j] == e1.thrusters_seq()[dd].counts_seq()[j] by {
            lemma_present_pairs_lookup(
                e1.thrusters_seq()[dd].ids(),
                e1.thrusters_seq()[dd].counts_seq(),
                j,
            );
            assert(collection_refreshed(e2.thrusters_seq()[dd], d.thrusters@[dd]@, j));
        }
    }
    assert(e2.model_view().groups =~~= e1.model_view().groups);
    assert(e2.model_view().thrusters =~~= e1.model_view().thrusters);
    assert(e2.model_view() =~~= e1.model_view());
}

/// Directional-independence law: an edit of one direction's count for an
/// item changes nothing in the five other directions — their count
/// tables, and the whole undirected model, are untouched, so recomputed
/// outputs can differ only through the edited direction's counts.  The
/// hypotheses are `edit_thruster`'s contract.
pub proof fn lemma_directional_independence(
    e1: Engine,
    e2: Engine,
    dir: Direction,
    pos: int,
    text: Seq<char>,
)
    requires
        e1.wf(),
        e2.wf(),
        e2.thrusters_seq().len() == DIRECTION_COUNT,
        forall|d2: int|
            0 <= d2 < DIRECTION_COUNT && d2 != dir.index_spec() ==> #[trigger] e2.thrusters_seq()[
                d2
            ] == e1.thrusters_seq()[d2],
        0 <= pos < e1.thrusters_seq()[dir.index_spec()].len_spec(),
        e2.thrusters_seq()[dir.index_spec()].counts_seq() == e1.thrusters_seq()[
            dir.index_spec()
        ].counts_seq().update(pos, Some(edited_count(text))),
        e2.scalars_seq() == e1.scalars_seq(),
        e2.groups_seq() == e1.groups_seq(),
    ensures
        forall|d2: int|
            0 <= d2 < DIRECTION_COUNT && d2 != dir.index_spec() ==> (#[trigger] e2.thrusters_seq()[
                d2
            ]).counts_seq() == e1.thrusters_seq()[d2].counts_seq(),
        e2.model_view().scalars == e1.model_view().scalars,
        e2.model_view().groups == e1.model_view().groups,
        forall|d2: int|
            0 <= d2 < DIRECTION_COUNT && d2 != dir.index_spec() ==> e2.model_view().thrusters[d2]
                == e1.model_view().thrusters[d2],
{
}

} // verus!
