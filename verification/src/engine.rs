//! The form–model binding engine.
//!
//! One `Engine` owns the whole edit state of one open document: the scalar
//! parameters with their bound field texts, the keyed collection bindings
//! (one table of counts per functional group, and one per direction for
//! the directional collection), the remembered directory and file path,
//! and the latest derived-output frame pushed to the display sink.
//!
//! The domain computation and the persistence format are owned by an
//! external calculator.  The host drives the engine in a loop: after any
//! mutation the engine flags a pending recalculation, the host feeds the
//! exported model to the calculator and hands the outputs back, and the
//! engine records, as ghost state, exactly which model snapshot the
//! displayed outputs derive from.

use vstd::prelude::*;

use crate::model::{
    edited_count, entry_ids, pair_lookup, present_pairs, unique_entry_ids, CatalogEntry,
    Collection, Direction, DIRECTION_COUNT,
};
use crate::text::{format_scalar, parse_scalar, scalar_parse, scalar_text2};

verus! {

/// The model content the external calculator consumes, as a mathematical
/// value: scalar parameters and the counts of every collection, by
/// position.  The catalogs behind the positions are fixed when the engine
/// is built, so two equal views mean the calculator sees the same input.
#[verifier::ext_equal]
pub struct ModelView {
    pub scalars: Seq<i64>,
    pub groups: Seq<Seq<Option<u64>>>,
    pub thrusters: Seq<Seq<Option<u64>>>,
}

/// One derived-output frame as the external calculator hands it back; the
/// engine routes it to the display sink without interpreting it.
pub struct Outputs {
    pub values: Vec<u64>,
}

/// How the host's attempt to read and deserialize a document ended.
#[derive(Clone, Copy, PartialEq, Eq, Structural, Debug)]
pub enum LoadFailure {
    /// The path could not be opened or read.
    Unreadable,
    /// The contents could not be deserialized.
    Unparseable,
}

/// A failed load, carrying the offending path.
#[derive(Debug)]
pub enum LoadError {
    FileUnreadable { path: String },
    ContentUnparseable { path: String },
}

/// How the host's attempt to serialize and write the model ended.
#[derive(Clone, Copy, PartialEq, Eq, Structural, Debug)]
pub enum SaveFailure {
    /// The path could not be opened, created or truncated.
    Unwritable,
    /// The model could not be serialized.
    Unserializable,
}

/// A failed save, carrying the offending path.
#[derive(Debug)]
pub enum SaveError {
    FileUnwritable { path: String },
    ContentUnserializable { path: String },
}

/// The plain content of one document: what the external serializer writes
/// and the deserializer yields, with counts as `(id, count)` pairs.
pub struct Document {
    pub scalars: Vec<i64>,
    pub groups: Vec<Vec<(u64, u64)>>,
    pub thrusters: Vec<Vec<(u64, u64)>>,
}

/// What an edited scalar field writes into the model: the parsed value, or
/// the field's configured default when the text does not parse.
pub open spec fn edited_scalar(t: Seq<char>, default: i64) -> i64 {
    match scalar_parse(t) {
        Some(v) => v,
        None => default,
    }
}

/// The view of an optional path.
pub open spec fn opt_text(o: Option<String>) -> Option<Seq<char>> {
    match o {
        Some(s) => Some(s@),
        None => None,
    }
}

/// What a batched refresh guarantees for position `j` of a collection:
/// the count and field text of the item follow the loaded pairs — the
/// first pair with the item's id if there is one, else absent and blank.
pub open spec fn collection_refreshed(c: Collection, pairs: Seq<(u64, u64)>, j: int) -> bool {
    match pair_lookup(pairs, c.ids()[j]) {
        Some(cc) => c.counts_seq()[j] == Some(cc) && c.texts_seq()[j] == crate::text::dec_digits(
            cc as int,
        ),
        None => c.counts_seq()[j] is None && c.texts_seq()[j] =~= Seq::<char>::empty(),
    }
}

/// The single owner of one document's edit state.
pub struct Engine {
    scalars: Vec<i64>,
    scalar_texts: Vec<String>,
    defaults: Vec<i64>,
    groups: Vec<Collection>,
    thrusters: Vec<Collection>,
    current_dir: Option<String>,
    current_file: Option<String>,
    sink: Option<Outputs>,
    pending: bool,
    sink_model: Ghost<Option<ModelView>>,
}

impl Engine {
    /// The scalar parameter values, in schema order.
    pub closed spec fn scalars_seq(self) -> Seq<i64> {
        self.scalars@
    }

    /// The texts the scalar fields display, in schema order.
    pub closed spec fn scalar_texts_seq(self) -> Seq<Seq<char>> {
        self.scalar_texts@.map_values(|t: String| t@)
    }

    /// The per-field defaults written on a failed parse.
    pub closed spec fn defaults_seq(self) -> Seq<i64> {
        self.defaults@
    }

    /// The undirected collection bindings, one per functional group.
    pub closed spec fn groups_seq(self) -> Seq<Collection> {
        self.groups@
    }

    /// The directional collection bindings, indexed by direction.
    pub closed spec fn thrusters_seq(self) -> Seq<Collection> {
        self.thrusters@
    }

    /// The remembered directory for file dialogs.
    pub closed spec fn current_dir_spec(self) -> Option<Seq<char>> {
        opt_text(self.current_dir)
    }

    /// The remembered file path of the open document.
    pub closed spec fn current_file_spec(self) -> Option<Seq<char>> {
        opt_text(self.current_file)
    }

    /// What the display sink currently shows.
    pub closed spec fn sink_spec(self) -> Option<Seq<u64>> {
        match self.sink {
            Some(o) => Some(o.values@),
            None => None,
        }
    }

    /// Whether a mutation has happened whose recalculation the host has
    /// not completed yet.
    pub closed spec fn pending_spec(self) -> bool {
        self.pending
    }

    /// The model snapshot the displayed outputs derive from.
    pub closed spec fn sink_model_spec(self) -> Option<ModelView> {
        self.sink_model@
    }

    pub open spec fn num_scalars(self) -> nat {
        self.scalars_seq().len()
    }

    pub open spec fn num_groups(self) -> nat {
        self.groups_seq().len()
    }

    /// The calculator's view of the current model.
    pub open spec fn model_view(self) -> ModelView {
        (ModelView {
            scalars: self.scalars_seq(),
            groups: self.groups_seq().map_values(|c: Collection| c.counts_seq()),
            thrusters: self.thrusters_seq().map_values(|c: Collection| c.counts_seq()),
        })
    }

    /// Well-formedness.  Besides the structural invariants — parallel
    /// scalar columns, well-formed collections, all six directions present
    /// and sharing one catalog — this carries the freshness invariant:
    /// whenever no recalculation is pending, the sink's outputs derive
    /// from the model exactly as it stands.
    pub open spec fn wf(self) -> bool {
        &&& self.scalar_texts_seq().len() == self.num_scalars()
        &&& self.defaults_seq().len() == self.num_scalars()
        &&& forall|g: int| 0 <= g < self.num_groups() ==> (#[trigger] self.groups_seq()[g]).wf()
        &&& self.thrusters_seq().len() == DIRECTION_COUNT
        &&& forall|d: int|
            0 <= d < DIRECTION_COUNT ==> (#[trigger] self.thrusters_seq()[d]).wf()
        &&& forall|d: int|
            0 <= d < DIRECTION_COUNT ==> (#[trigger] self.thrusters_seq()[d]).ids()
                == self.thrusters_seq()[0].ids()
        &&& !self.pending_spec() ==> {
            &&& self.sink_model_spec() == Some(self.model_view())
            &&& self.sink_spec() is Some
        }
    }

    /// Build the engine for one document: the scalar schema is given by
    /// its defaults, the collections by their catalogs.  The model starts
    /// at the defaults with every count absent, every field blank, and one
    /// initial recalculation pending.
    pub fn new(
        defaults: Vec<i64>,
        group_catalogs: &Vec<Vec<CatalogEntry>>,
        thruster_catalog: &Vec<CatalogEntry>,
        initial_dir: Option<String>,
    ) -> (r: Engine)
        requires
            forall|g: int|
                0 <= g < group_catalogs@.len() ==> unique_entry_ids(
                    (#[trigger] group_catalogs@[g])@,
                ),
            unique_entry_ids(thruster_catalog@),
        ensures
            r.wf(),
            r.num_scalars() == defaults@.len(),
            r.scalars_seq() == defaults@,
            r.defaults_seq() == defaults@,
            forall|i: int|
                0 <= i < defaults@.len() ==> (#[trigger] r.scalar_texts_seq()[i])
                    =~= Seq::<char>::empty(),
            r.num_groups() == group_catalogs@.len(),
            forall|g: int|
                0 <= g < group_catalogs@.len() ==> {
                    let c = #[trigger] r.groups_seq()[g];
                    &&& c.ids() == entry_ids(group_catalogs@[g]@)
                    &&& c.counts_seq() =~= Seq::new(group_catalogs@[g]@.len(), |j: int| None::<u64>)
                    &&& c.texts_seq() =~= Seq::new(
                        group_catalogs@[g]@.len(),
                        |j: int| Seq::<char>::empty(),
                    )
                },
            forall|d: int|
                0 <= d < DIRECTION_COUNT ==> {
                    let c = #[trigger] r.thrusters_seq()[d];
                    &&& c.ids() == entry_ids(thruster_catalog@)
                    &&& c.counts_seq() =~= Seq::new(thruster_catalog@.len(), |j: int| None::<u64>)
                    &&& c.texts_seq() =~= Seq::new(
                        thruster_catalog@.len(),
                        |j: int| Seq::<char>::empty(),
                    )
                },
            r.current_dir_spec() == opt_text(initial_dir),
            r.current_file_spec() is None,
            r.pending_spec(),
            r.sink_spec() is None,
    {
        let n = defaults.len();
        let mut scalars: Vec<i64> = Vec::new();
        let mut scalar_texts: Vec<String> = Vec::new();
        let mut i: usize = 0;
        while i < n
            invariant
                i <= n,
                n == defaults@.len(),
                scalars@ =~= defaults@.take(i as int),
                scalar_texts@.len() == i,
                forall|j: int|
                    0 <= j < i ==> (#[trigger] scalar_texts@[j])@ =~= Seq::<char>::empty(),
            decreases n - i,
        {
            proof {
                assert(defaults@.take(i + 1) =~= defaults@.take(i as int).push(defaults@[i as int]));
            }
            scalars.push(defaults[i]);
            scalar_texts.push(String::new());
            i = i + 1;
        }
        proof {
            assert(defaults@.take(n as int) =~= defaults@);
        }
        let gn = group_catalogs.len();
        let mut groups: Vec<Collection> = Vec::new();
        let mut g: usize = 0;
        while g < gn
            invariant
                g <= gn,
                gn == group_catalogs@.len(),
                forall|h: int|
                    0 <= h < group_catalogs@.len() ==> unique_entry_ids(
                        (#[trigger] group_catalogs@[h])@,
                    ),
                groups@.len() == g,
                forall|h: int|
                    0 <= h < g ==> {
                        let c = #[trigger] groups@[h];
                        &&& c.wf()
                        &&& c.ids() == entry_ids(group_catalogs@[h]@)
                        &&& c.counts_seq() =~= Seq::new(
                            group_catalogs@[h]@.len(),
                            |j: int| None::<u64>,
                        )
                        &&& c.texts_seq() =~= Seq::new(
                            group_catalogs@[h]@.len(),
                            |j: int| Seq::<char>::empty(),
                        )
                    },
            decreases gn - g,
        {
            let c = Collection::new(&group_catalogs[g]);
            groups.push(c);
            g = g + 1;
        }
        let mut thrusters: Vec<Collection> = Vec::new();
        let mut d: usize = 0;
        while d < DIRECTION_COUNT
            invariant
                d <= DIRECTION_COUNT,
                unique_entry_ids(thruster_catalog@),
                thrusters@.len() == d,
                forall|h: int|
                    0 <= h < d ==> {
                        let c = #[trigger] thrusters@[h];
                        &&& c.wf()
                        &&& c.ids() == entry_ids(thruster_catalog@)
                        &&& c.counts_seq() =~= Seq::new(thruster_catalog@.len(), |j: int| None::<u64>)
                        &&& c.texts_seq() =~= Seq::new(
                            thruster_catalog@.len(),
                            |j: int| Seq::<char>::empty(),
                        )
                    },
            decreases DIRECTION_COUNT - d,
        {
            let c = Collection::new(thruster_catalog);
            thrusters.push(c);
            d = d + 1;
        }
        Engine {
            scalars,
            scalar_texts,
            defaults,
            groups,
            thrusters,
            current_dir: initial_dir,
            current_file: None,
            sink: None,
            pending: true,
            sink_model: Ghost(None),
        }
    }

    /// Whether the host owes the engine a recalculation.
    pub fn needs_recalc(&self) -> (r: bool)
        ensures
            r == self.pending_spec(),
    {
        self.pending
    }

    /// Complete the pending recalculation: the outputs the calculator
    /// produced for the exported model are pushed to the display sink, and
    /// the sink is from now on attributed to the model exactly as it
    /// stands — the model itself is untouched.
    pub fn complete_recalc(&mut self, outputs: Outputs)
        requires
            old(self).wf(),
            old(self).pending_spec(),
        ensures
            final(self).wf(),
            !final(self).pending_spec(),
            final(self).sink_spec() == Some(outputs.values@),
            final(self).sink_model_spec() == Some(old(self).model_view()),
            final(self).model_view() == old(self).model_view(),
            final(self).scalars_seq() == old(self).scalars_seq(),
            final(self).scalar_texts_seq() == old(self).scalar_texts_seq(),
            final(self).defaults_seq() == old(self).defaults_seq(),
            final(self).groups_seq() == old(self).groups_seq(),
            final(self).thrusters_seq() == old(self).thrusters_seq(),
            final(self).current_dir_spec() == old(self).current_dir_spec(),
            final(self).current_file_spec() == old(self).current_file_spec(),
    {
        self.sink = Some(outputs);
        self.pending = false;
        proof {
            self.sink_model@ = Some(self.model_view());
            assert(self.model_view() == old(self).model_view());
            assert(self.scalar_texts_seq() == old(self).scalar_texts_seq());
        }
    }

    /// Record an edit of the scalar field `i`: the field keeps the typed
    /// text, the model attribute becomes the parsed value — or the field's
    /// configured default when the text does not parse, never the prior
    /// value — and a recalculation is owed before anything is redisplayed.
    pub fn edit_scalar(&mut self, i: usize, text: String)
        requires
            old(self).wf(),
            i < old(self).num_scalars(),
        ensures
            final(self).wf(),
            final(self).pending_spec(),
            final(self).scalars_seq() =~= old(self).scalars_seq().update(
                i as int,
                edited_scalar(text@, old(self).defaults_seq()[i as int]),
            ),
            final(self).scalar_texts_seq() =~= old(self).scalar_texts_seq().update(i as int, text@),
            final(self).defaults_seq() == old(self).defaults_seq(),
            final(self).groups_seq() == old(self).groups_seq(),
            final(self).thrusters_seq() == old(self).thrusters_seq(),
            final(self).current_dir_spec() == old(self).current_dir_spec(),
            final(self).current_file_spec() == old(self).current_file_spec(),
            final(self).sink_spec() == old(self).sink_spec(),
    {
        let v = match parse_scalar(text.as_str()) {
            Some(v) => v,
            None => self.defaults[i],
        };
        self.scalars[i] = v;
        self.scalar_texts[i] = text;
        self.pending = true;
    }

    /// Record an edit of the count field at position `pos` of group `g`:
    /// the field keeps the typed text, the item's count becomes the parsed
    /// value — zero when the text does not parse — inserting the key if it
    /// was absent, and a recalculation is owed.
    pub fn edit_count(&mut self, g: usize, pos: usize, text: String)
        requires
            old(self).wf(),
            g < old(self).num_groups(),
            pos < old(self).groups_seq()[g as int].len_spec(),
        ensures
            final(self).wf(),
            final(self).pending_spec(),
            final(self).num_groups() == old(self).num_groups(),
            forall|h: int|
                0 <= h < old(self).num_groups() && h != g ==> final(self).groups_seq()[h] == old(self).groups_seq()[h],
            final(self).groups_seq()[g as int].ids() == old(self).groups_seq()[g as int].ids(),
            final(self).groups_seq()[g as int].counts_seq() =~= old(self).groups_seq()[
                g as int
            ].counts_seq().update(pos as int, Some(edited_count(text@))),
            final(self).groups_seq()[g as int].texts_seq() =~= old(self).groups_seq()[
                g as int
            ].texts_seq().update(pos as int, text@),
            final(self).scalars_seq() == old(self).scalars_seq(),
            final(self).scalar_texts_seq() == old(self).scalar_texts_seq(),
            final(self).defaults_seq() == old(self).defaults_seq(),
            final(self).thrusters_seq() == old(self).thrusters_seq(),
            final(self).current_dir_spec() == old(self).current_dir_spec(),
            final(self).current_file_spec() == old(self).current_file_spec(),
            final(self).sink_spec() == old(self).sink_spec(),
    {
        let mut c = self.groups.remove(g);
        c.edit(pos, text);
        self.groups.insert(g, c);
        self.pending = true;
        proof {
            assert(final(self).groups_seq() =~= old(self).groups_seq().update(
                g as int,
                final(self).groups_seq()[g as int],
            ));
        }
    }

    /// Record an edit of the count field at position `pos` of the
    /// directional collection for direction `dir`: only that direction's
    /// count table changes, and a recalculation is owed.
    pub fn edit_thruster(&mut self, dir: Direction, pos: usize, text: String)
        requires
            old(self).wf(),
            pos < old(self).thrusters_seq()[dir.index_spec()].len_spec(),
        ensures
            final(self).wf(),
            final(self).pending_spec(),
            final(self).thrusters_seq().len() == DIRECTION_COUNT,
            forall|d2: int|
                0 <= d2 < DIRECTION_COUNT && d2 != dir.index_spec() ==> final(self).thrusters_seq()[d2] == old(self).thrusters_seq()[d2],
            final(self).thrusters_seq()[dir.index_spec()].ids() == old(self).thrusters_seq()[
                dir.index_spec()
            ].ids(),
            final(self).thrusters_seq()[dir.index_spec()].counts_seq() =~= old(self).thrusters_seq()[dir.index_spec()].counts_seq().update(
                pos as int,
                Some(edited_count(text@)),
            ),
            final(self).thrusters_seq()[dir.index_spec()].texts_seq() =~= old(self).thrusters_seq()[dir.index_spec()].texts_seq().update(pos as int, text@),
            final(self).scalars_seq() == old(self).scalars_seq(),
            final(self).scalar_texts_seq() == old(self).scalar_texts_seq(),
            final(self).defaults_seq() == old(self).defaults_seq(),
            final(self).groups_seq() == old(self).groups_seq(),
            final(self).current_dir_spec() == old(self).current_dir_spec(),
            final(self).current_file_spec() == old(self).current_file_spec(),
            final(self).sink_spec() == old(self).sink_spec(),
    {
        let d = dir.index();
        let mut c = self.thrusters.remove(d);
        c.edit(pos, text);
        self.thrusters.insert(d, c);
        self.pending = true;
        proof {
            assert(final(self).thrusters_seq() =~= old(self).thrusters_seq().update(
                d as int,
                final(self).thrusters_seq()[d as int],
            ));
        }
    }

    /// Export the model for the external calculator or serializer: the
    /// scalar values in schema order, and each collection's present
    /// `(id, count)` pairs in catalog order.
    pub fn export(&self) -> (r: Document)
        requires
            self.wf(),
        ensures
            r.scalars@ == self.scalars_seq(),
            r.groups@.len() == self.num_groups(),
            forall|g: int|
                0 <= g < self.num_groups() ==> (#[trigger] r.groups@[g])@ == present_pairs(
                    self.groups_seq()[g].ids(),
                    self.groups_seq()[g].counts_seq(),
                ),
            r.thrusters@.len() == DIRECTION_COUNT,
            forall|d: int|
                0 <= d < DIRECTION_COUNT ==> (#[trigger] r.thrusters@[d])@ == present_pairs(
                    self.thrusters_seq()[d].ids(),
                    self.thrusters_seq()[d].counts_seq(),
                ),
    {
        let n = self.scalars.len();
        let mut scalars: Vec<i64> = Vec::new();
        let mut i: usize = 0;
        while i < n
            invariant
                i <= n,
                n == self.scalars_seq().len(),
                scalars@ =~= self.scalars_seq().take(i as int),
            decreases n - i,
        {
            proof {
                assert(self.scalars_seq().take(i + 1) =~= self.scalars_seq().take(i as int).push(
                    self.scalars_seq()[i as int],
                ));
            }
            scalars.push(self.scalars[i]);
            i = i + 1;
        }
        proof {
            assert(self.scalars_seq().take(n as int) =~= self.scalars_seq());
        }
        let gn = self.groups.len();
        let mut groups: Vec<Vec<(u64, u64)>> = Vec::new();
        let mut g: usize = 0;
        while g < gn
            invariant
                g <= gn,
                gn == self.num_groups(),
                self.wf(),
                groups@.len() == g,
                forall|h: int|
                    0 <= h < g ==> (#[trigger] groups@[h])@ == present_pairs(
                        self.groups_seq()[h].ids(),
                        self.groups_seq()[h].counts_seq(),
                    ),
            decreases gn - g,
        {
            let pairs = self.groups[g].export_pairs();
            groups.push(pairs);
            g = g + 1;
        }
        let mut thrusters: Vec<Vec<(u64, u64)>> = Vec::new();
        let mut d: usize = 0;
        while d < DIRECTION_COUNT
            invariant
                d <= DIRECTION_COUNT,
                self.wf(),
                thrusters@.len() == d,
                forall|h: int|
                    0 <= h < d ==> (#[trigger] thrusters@[h])@ == present_pairs(
                        self.thrusters_seq()[h].ids(),
                        self.thrusters_seq()[h].counts_seq(),
                    ),
            decreases DIRECTION_COUNT - d,
        {
            let pairs = self.thrusters[d].export_pairs();
            thrusters.push(pairs);
            d = d + 1;
        }
        Document { scalars, groups, thrusters }
    }

    /// Finish a load.  On either failure the engine — model, every bound
    /// field text, bookkeeping and sink — is exactly as it was, and the
    /// failure is returned with the offending path.  On success the whole
    /// model is replaced by the document's content, every scalar field is
    /// overwritten with the two-decimal text of its new value, every
    /// collection field is blanked and then refreshed from the loaded
    /// pairs, the path is remembered as both file and directory, and one
    /// recalculation is owed for the whole batch.
    pub fn load_apply(
        &mut self,
        loaded: Result<Document, LoadFailure>,
        path: String,
        dir: Option<String>,
    ) -> (r: Result<(), LoadError>)
        requires
            old(self).wf(),
            loaded matches Ok(d) ==> {
                &&& d.scalars@.len() == old(self).num_scalars()
                &&& d.groups@.len() == old(self).num_groups()
                &&& d.thrusters@.len() == DIRECTION_COUNT
            },
        ensures
            final(self).wf(),
            match loaded {
                Err(f) => {
                    &&& *final(self) == *old(self)
                    &&& match (f, r) {
                        (LoadFailure::Unreadable, Err(LoadError::FileUnreadable { path: p })) => p@
                            == path@,
                        (
                            LoadFailure::Unparseable,
                            Err(LoadError::ContentUnparseable { path: p }),
                        ) => p@ == path@,
                        _ => false,
                    }
                },
                Ok(d) => {
                    &&& r is Ok
                    &&& final(self).scalars_seq() == d.scalars@
                    &&& final(self).scalar_texts_seq() =~= Seq::new(
                        d.scalars@.len(),
                        |i: int| scalar_text2(d.scalars@[i] as int),
                    )
                    &&& final(self).defaults_seq() == old(self).defaults_seq()
                    &&& final(self).num_groups() == old(self).num_groups()
                    &&& forall|g: int|
                        0 <= g < old(self).num_groups() ==> (#[trigger] final(self).groups_seq()[g]).ids() == old(self).groups_seq()[g].ids()
                    &&& forall|g: int, j: int|
                        0 <= g < old(self).num_groups() && 0 <= j < old(self).groups_seq()[g].len_spec() ==> #[trigger] collection_refreshed(
                            final(self).groups_seq()[g],
                            d.groups@[g]@,
                            j,
                        )
                    &&& forall|dd: int|
                        0 <= dd < DIRECTION_COUNT ==> (#[trigger] final(self).thrusters_seq()[dd]).ids() == old(self).thrusters_seq()[dd].ids()
                    &&& forall|dd: int, j: int|
                        0 <= dd < DIRECTION_COUNT && 0 <= j < old(self).thrusters_seq()[dd].len_spec() ==> #[trigger] collection_refreshed(
                            final(self).thrusters_seq()[dd],
                            d.thrusters@[dd]@,
                            j,
                        )
                    &&& final(self).current_file_spec() == Some(path@)
                    &&& final(self).current_dir_spec() == opt_text(dir)
                    &&& final(self).pending_spec()
                    &&& final(self).sink_spec() == old(self).sink_spec()
                },
            },
    {
        let d = match loaded {
            Ok(d) => d,
            Err(LoadFailure::Unreadable) => {
                return Err(LoadError::FileUnreadable { path });
            },
            Err(LoadFailure::Unparseable) => {
                return Err(LoadError::ContentUnparseable { path });
            },
        };
        proof {
            assert(loaded == Ok::<Document, LoadFailure>(d));
        }
        self.current_file = Some(path);
        self.current_dir = dir;
        self.pending = true;
        let n = self.scalars.len();
        let mut i: usize = 0;
        while i < n
            invariant
                i <= n,
                n == old(self).num_scalars(),
                d.scalars@.len() == n,
                self.defaults@ == old(self).defaults@,
                self.scalars@.len() == n,
                self.scalar_texts@.len() == n,
                forall|j: int| 0 <= j < i ==> self.scalars@[j] == d.scalars@[j],
                forall|j: int|
                    0 <= j < i ==> (#[trigger] self.scalar_texts@[j])@ == scalar_text2(
                        d.scalars@[j] as int,
                    ),
                self.groups@ == old(self).groups@,
                self.thrusters@ == old(self).thrusters@,
                opt_text(self.current_file) == Some(path@),
                opt_text(self.current_dir) == opt_text(dir),
                self.pending,
                self.sink == old(self).sink,
            decreases n - i,
        {
            let v = d.scalars[i];
            self.scalars[i] = v;
            self.scalar_texts[i] = format_scalar(v);
            i = i + 1;
        }
        let gn = self.groups.len();
        let mut g: usize = 0;
        while g < gn
            invariant
                g <= gn,
                gn == old(self).num_groups(),
                d.groups@.len() == gn,
                self.groups@.len() == gn,
                forall|h: int|
                    g <= h < gn ==> (#[trigger] self.groups_seq()[h]) == old(self).groups_seq()[h],
                forall|h: int|
                    0 <= h < gn ==> (#[trigger] self.groups_seq()[h]).wf()
                        && self.groups_seq()[h].ids() == old(self).groups_seq()[h].ids(),
                forall|h: int, j: int|
                    0 <= h < g && 0 <= j < old(self).groups_seq()[h].len_spec()
                        ==> #[trigger] collection_refreshed(
                        self.groups_seq()[h],
                        d.groups@[h]@,
                        j,
                    ),
                self.scalars@.len() == n,
                self.scalar_texts@.len() == n,
                d.scalars@.len() == n,
                n == old(self).num_scalars(),
                forall|j: int| 0 <= j < n ==> self.scalars@[j] == d.scalars@[j],
                forall|j: int|
                    0 <= j < n ==> (#[trigger] self.scalar_texts@[j])@ == scalar_text2(
                        d.scalars@[j] as int,
                    ),
                self.defaults@ == old(self).defaults@,
                self.thrusters@ == old(self).thrusters@,
                opt_text(self.current_file) == Some(path@),
                opt_text(self.current_dir) == opt_text(dir),
                self.pending,
                self.sink == old(self).sink,
            decreases gn - g,
        {
            let ghost pre = *self;
            proof {
                assert(self.groups_seq()[g as int].wf());
            }
            let mut c = self.groups.remove(g);
            c.refresh(&d.groups[g]);
            self.groups.insert(g, c);
            proof {
                assert(self.groups@ =~= pre.groups@.update(g as int, self.groups@[g as int]));
                assert forall|j: int| 0 <= j < n implies self.scalars@[j] == d.scalars@[j] by {
                    assert(pre.scalars@[j] == d.scalars@[j]);
                    assert(self.scalars@ == pre.scalars@);
                }
                assert forall|j: int|
                    0 <= j < n implies (#[trigger] self.scalar_texts@[j])@ == scalar_text2(
                    d.scalars@[j] as int,
                ) by {
                    assert((pre.scalar_texts@[j])@ == scalar_text2(d.scalars@[j] as int));
                    assert(self.scalar_texts@ == pre.scalar_texts@);
                }
            }
            g = g + 1;
        }
        let mut dd: usize = 0;
        while dd < DIRECTION_COUNT
            invariant
                dd <= DIRECTION_COUNT,
                d.thrusters@.len() == DIRECTION_COUNT,
                self.thrusters@.len() == DIRECTION_COUNT,
                old(self).thrusters@.len() == DIRECTION_COUNT,
                forall|h: int|
                    dd <= h < DIRECTION_COUNT ==> (#[trigger] self.thrusters_seq()[h]) == old(self).thrusters_seq()[h],
                forall|h: int|
                    0 <= h < DIRECTION_COUNT ==> (#[trigger] self.thrusters_seq()[h]).wf()
                        && self.thrusters_seq()[h].ids() == old(self).thrusters_seq()[h].ids(),
                forall|h: int, j: int|
                    0 <= h < dd && 0 <= j < old(self).thrusters_seq()[h].len_spec()
                        ==> #[trigger] collection_refreshed(
                        self.thrusters_seq()[h],
                        d.thrusters@[h]@,
                        j,
                    ),
                self.scalars@.len() == n,
                self.scalar_texts@.len() == n,
                d.scalars@.len() == n,
                n == old(self).num_scalars(),
                forall|j: int| 0 <= j < n ==> self.scalars@[j] == d.scalars@[j],
                forall|j: int|
                    0 <= j < n ==> (#[trigger] self.scalar_texts@[j])@ == scalar_text2(
                        d.scalars@[j] as int,
                    ),
                self.defaults@ == old(self).defaults@,
                gn == old(self).num_groups(),
                d.groups@.len() == gn,
                self.groups@.len() == gn,
                forall|h: int|
                    0 <= h < gn ==> (#[trigger] self.groups_seq()[h]).wf()
                        && self.groups_seq()[h].ids() == old(self).groups_seq()[h].ids(),
                forall|h: int, j: int|
                    0 <= h < gn && 0 <= j < old(self).groups_seq()[h].len_spec()
                        ==> #[trigger] collection_refreshed(
                        self.groups_seq()[h],
                        d.groups@[h]@,
                        j,
                    ),
                opt_text(self.current_file) == Some(path@),
                opt_text(self.current_dir) == opt_text(dir),
                self.pending,
                self.sink == old(self).sink,
            decreases DIRECTION_COUNT - dd,
        {
            let ghost pre = *self;
            proof {
                assert(self.thrusters_seq()[dd as int].wf());
            }
            let mut c = self.thrusters.remove(dd);
            c.refresh(&d.thrusters[dd]);
            self.thrusters.insert(dd, c);
            proof {
                assert(self.thrusters@ =~= pre.thrusters@.update(
                    dd as int,
                    self.thrusters@[dd as int],
                ));
                assert forall|j: int| 0 <= j < n implies self.scalars@[j] == d.scalars@[j] by {
                    assert(pre.scalars@[j] == d.scalars@[j]);
                    assert(self.scalars@ == pre.scalars@);
                }
                assert forall|j: int|
                    0 <= j < n implies (#[trigger] self.scalar_texts@[j])@ == scalar_text2(
                    d.scalars@[j] as int,
                ) by {
                    assert((pre.scalar_texts@[j])@ == scalar_text2(d.scalars@[j] as int));
                    assert(self.scalar_texts@ == pre.scalar_texts@);
                }
                assert forall|h: int|
                    0 <= h < gn implies (#[trigger] self.groups_seq()[h]).wf()
                        && self.groups_seq()[h].ids() == old(self).groups_seq()[h].ids() by {
                    assert(pre.groups_seq()[h].wf() && pre.groups_seq()[h].ids() == old(
                        self,
                    ).groups_seq()[h].ids());
                    assert(self.groups@ == pre.groups@);
                }
                assert forall|h: int, j: int|
                    0 <= h < gn && 0 <= j < old(self).groups_seq()[h].len_spec()
                        implies #[trigger] collection_refreshed(
                    self.groups_seq()[h],
                    d.groups@[h]@,
                    j,
                ) by {
                    assert(collection_refreshed(pre.groups_seq()[h], d.groups@[h]@, j));
                    assert(self.groups@ == pre.groups@);
                }
            }
            dd = dd + 1;
        }
        proof {
            assert forall|d2: int| 0 <= d2 < DIRECTION_COUNT implies (#[trigger] self.thrusters_seq()[
                d2
            ]).ids() == self.thrusters_seq()[0].ids() by {
                assert(self.thrusters_seq()[d2].ids() == old(self).thrusters_seq()[d2].ids());
                assert(self.thrusters_seq()[0].ids() == old(self).thrusters_seq()[0].ids());
            }
            assert(self.scalars@ =~= d.scalars@);
            assert(self.scalar_texts_seq() =~= Seq::new(
                d.scalars@.len(),
                |i2: int| scalar_text2(d.scalars@[i2] as int),
            ));
            assert(self.wf());
        }
        Ok(())
    }

    /// Where a plain save goes: the remembered file path, or nothing when
    /// none is remembered yet and the host must ask for a destination, as
    /// it always does for an explicit save-as.
    pub fn save_target(&self) -> (r: Option<String>)
        ensures
            match (r, self.current_file_spec()) {
                (Some(p), Some(q)) => p@ == q,
                (None, None) => true,
                _ => false,
            },
    {
        match &self.current_file {
            Some(p) => Some(p.clone()),
            None => None,
        }
    }

    /// Finish a save.  On either failure nothing changes — no partially
    /// written file is remembered — and the failure is returned with the
    /// offending path.  On success only the bookkeeping moves: the path is
    /// remembered as both file and directory.  The model, the bound
    /// fields and the sink are never touched by a save.
    pub fn save_commit(
        &mut self,
        outcome: Result<(), SaveFailure>,
        path: String,
        dir: Option<String>,
    ) -> (r: Result<(), SaveError>)
        requires
            old(self).wf(),
        ensures
            final(self).wf(),
            match outcome {
                Err(f) => {
                    &&& *final(self) == *old(self)
                    &&& match (f, r) {
                        (SaveFailure::Unwritable, Err(SaveError::FileUnwritable { path: p })) => p@
                            == path@,
                        (
                            SaveFailure::Unserializable,
                            Err(SaveError::ContentUnserializable { path: p }),
                        ) => p@ == path@,
                        _ => false,
                    }
                },
                Ok(u) => {
                    &&& r is Ok
                    &&& final(self).current_file_spec() == Some(path@)
                    &&& final(self).current_dir_spec() == opt_text(dir)
                    &&& final(self).scalars_seq() == old(self).scalars_seq()
                    &&& final(self).scalar_texts_seq() == old(self).scalar_texts_seq()
                    &&& final(self).defaults_seq() == old(self).defaults_seq()
                    &&& final(self).groups_seq() == old(self).groups_seq()
                    &&& final(self).thrusters_seq() == old(self).thrusters_seq()
                    &&& final(self).sink_spec() == old(self).sink_spec()
                    &&& final(self).pending_spec() == old(self).pending_spec()
                    &&& final(self).sink_model_spec() == old(self).sink_model_spec()
                },
            },
    {
        match outcome {
            Ok(_) => {
                self.current_file = Some(path);
                self.current_dir = dir;
                Ok(())
            },
            Err(SaveFailure::Unwritable) => Err(SaveError::FileUnwritable { path }),
            Err(SaveFailure::Unserializable) => Err(SaveError::ContentUnserializable { path }),
        }
    }

    /// How many scalar parameters the schema has.
    pub fn scalar_count(&self) -> (r: usize)
        ensures
            r == self.num_scalars(),
    {
        self.scalars.len()
    }

    /// The current value of scalar parameter `i`, in millionths.
    pub fn scalar_value(&self, i: usize) -> (r: i64)
        requires
            i < self.num_scalars(),
        ensures
            r == self.scalars_seq()[i as int],
    {
        self.scalars[i]
    }

    /// The text the scalar field `i` currently displays.
    pub fn scalar_text(&self, i: usize) -> (r: &String)
        requires
            self.wf(),
            i < self.num_scalars(),
        ensures
            r@ == self.scalar_texts_seq()[i as int],
    {
        &self.scalar_texts[i]
    }

    /// The default written into scalar `i` when an edit does not parse.
    pub fn scalar_default(&self, i: usize) -> (r: i64)
        requires
            self.wf(),
            i < self.num_scalars(),
        ensures
            r == self.defaults_seq()[i as int],
    {
        self.defaults[i]
    }

    /// How many functional groups the schema has.
    pub fn group_count(&self) -> (r: usize)
        ensures
            r == self.num_groups(),
    {
        self.groups.len()
    }

    /// How many items group `g`'s catalog has.
    pub fn group_len(&self, g: usize) -> (r: usize)
        requires
            g < self.num_groups(),
        ensures
            r == self.groups_seq()[g as int].len_spec(),
    {
        self.groups[g].len()
    }

    /// The model count for position `j` of group `g`; `None` is an absent
    /// key, which the model reads as zero.
    pub fn count_of(&self, g: usize, j: usize) -> (r: Option<u64>)
        requires
            self.wf(),
            g < self.num_groups(),
            j < self.groups_seq()[g as int].len_spec(),
        ensures
            r == self.groups_seq()[g as int].counts_seq()[j as int],
    {
        self.groups[g].count_at(j)
    }

    /// The text the count field at position `j` of group `g` displays.
    pub fn count_text(&self, g: usize, j: usize) -> (r: &String)
        requires
            self.wf(),
            g < self.num_groups(),
            j < self.groups_seq()[g as int].len_spec(),
        ensures
            r@ == self.groups_seq()[g as int].texts_seq()[j as int],
    {
        self.groups[g].text_at(j)
    }

    /// The catalog item id at position `j` of group `g`.
    pub fn group_item_id(&self, g: usize, j: usize) -> (r: u64)
        requires
            self.wf(),
            g < self.num_groups(),
            j < self.groups_seq()[g as int].len_spec(),
        ensures
            r == self.groups_seq()[g as int].ids()[j as int],
    {
        self.groups[g].id_at(j)
    }

    /// Constant-time lookup of the field position for item `id` in group
    /// `g`.
    pub fn find_in_group(&self, g: usize, id: u64) -> (r: Option<usize>)
        requires
            self.wf(),
            g < self.num_groups(),
        ensures
            match r {
                Some(j) => j < self.groups_seq()[g as int].len_spec() && self.groups_seq()[
                    g as int
                ].ids()[j as int] == id,
                None => forall|j: int|
                    0 <= j < self.groups_seq()[g as int].len_spec() ==> self.groups_seq()[
                        g as int
                    ].ids()[j] != id,
            },
    {
        self.groups[g].find(id)
    }

    /// How many items the directional collection's catalog has.
    pub fn thruster_len(&self) -> (r: usize)
        requires
            self.wf(),
        ensures
            r == self.thrusters_seq()[0].len_spec(),
    {
        self.thrusters[0].len()
    }

    /// The model count for position `j` of the directional collection in
    /// direction `dir`.
    pub fn thruster_count(&self, dir: Direction, j: usize) -> (r: Option<u64>)
        requires
            self.wf(),
            j < self.thrusters_seq()[dir.index_spec()].len_spec(),
        ensures
            r == self.thrusters_seq()[dir.index_spec()].counts_seq()[j as int],
    {
        let d = dir.index();
        self.thrusters[d].count_at(j)
    }

    /// The text the count field for direction `dir`, position `j`
    /// displays.
    pub fn thruster_text(&self, dir: Direction, j: usize) -> (r: &String)
        requires
            self.wf(),
            j < self.thrusters_seq()[dir.index_spec()].len_spec(),
        ensures
            r@ == self.thrusters_seq()[dir.index_spec()].texts_seq()[j as int],
    {
        let d = dir.index();
        self.thrusters[d].text_at(j)
    }

    /// Constant-time lookup of the field position for item `id` in the
    /// directional collection.
    pub fn find_thruster(&self, id: u64) -> (r: Option<usize>)
        requires
            self.wf(),
        ensures
            match r {
                Some(j) => j < self.thrusters_seq()[0].len_spec() && self.thrusters_seq()[
                    0
                ].ids()[j as int] == id,
                None => forall|j: int|
                    0 <= j < self.thrusters_seq()[0].len_spec() ==> self.thrusters_seq()[0].ids()[j]
                        != id,
            },
    {
        self.thrusters[0].find(id)
    }

    /// The remembered file path, if any.
    pub fn current_file_path(&self) -> (r: Option<&String>)
        ensures
            match (r, self.current_file_spec()) {
                (Some(p), Some(q)) => p@ == q,
                (None, None) => true,
                _ => false,
            },
    {
        match &self.current_file {
            Some(p) => Some(p),
            None => None,
        }
    }

    /// The remembered directory, if any.
    pub fn current_dir_path(&self) -> (r: Option<&String>)
        ensures
            match (r, self.current_dir_spec()) {
                (Some(p), Some(q)) => p@ == q,
                (None, None) => true,
                _ => false,
            },
    {
        match &self.current_dir {
            Some(p) => Some(p),
            None => None,
        }
    }

    /// What the display sink currently shows, if a frame has arrived yet.
    pub fn sink_values(&self) -> (r: Option<&Vec<u64>>)
        ensures
            match (r, self.sink_spec()) {
                (Some(v), Some(s)) => v@ == s,
                (None, None) => true,
                _ => false,
            },
    {
        match &self.sink {
            Some(o) => Some(&o.values),
            None => None,
        }
    }
}

} // verus!
