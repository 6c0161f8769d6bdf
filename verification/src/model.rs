//! The keyed collection binding and its building blocks.
//!
//! A collection binding ties one catalog-keyed count map of the model to a
//! set of editable text fields, one per catalog item, together with a
//! constant-time lookup table from item id to field position.  Catalog
//! items are handed in once, in the catalog's deterministic order, and the
//! field set never changes afterwards.

use std::collections::HashMap;

use vstd::prelude::*;

use crate::text::{count_parse, dec_digits, format_count, parse_count};

verus! {

broadcast use vstd::std_specs::hash::group_hash_axioms;

/// How many thrust directions there are.
pub const DIRECTION_COUNT: usize = 6;

/// The closed set of thrust directions.
#[derive(Clone, Copy, PartialEq, Eq, Structural, Debug)]
pub enum Direction {
    Up,
    Down,
    Front,
    Back,
    Left,
    Right,
}

impl Direction {
    /// Position of this direction in any directional table.
    pub open spec fn index_spec(self) -> int {
        match self {
            Direction::Up => 0,
            Direction::Down => 1,
            Direction::Front => 2,
            Direction::Back => 3,
            Direction::Left => 4,
            Direction::Right => 5,
        }
    }

    pub fn index(self) -> (r: usize)
        ensures
            r == self.index_spec(),
            r < DIRECTION_COUNT,
    {
        match self {
            Direction::Up => 0,
            Direction::Down => 1,
            Direction::Front => 2,
            Direction::Back => 3,
            Direction::Left => 4,
            Direction::Right => 5,
        }
    }
}

/// One catalog item as the catalog hands it to a collection binding: a
/// stable identifier and its size class.
#[derive(Clone, Copy, PartialEq, Eq, Structural, Debug)]
pub struct CatalogEntry {
    pub id: u64,
    pub large: bool,
}

/// No two entries carry the same identifier.
pub open spec fn unique_entry_ids(entries: Seq<CatalogEntry>) -> bool {
    forall|i: int, j: int| 0 <= i < j < entries.len() ==> entries[i].id != entries[j].id
}

/// The identifiers of a run of entries, in order.
pub open spec fn entry_ids(entries: Seq<CatalogEntry>) -> Seq<u64> {
    entries.map_values(|e: CatalogEntry| e.id)
}

/// Positions of the entries of one size class, in catalog order.
pub open spec fn class_positions(entries: Seq<CatalogEntry>, large: bool) -> Seq<usize>
    decreases entries.len(),
{
    if entries.len() == 0 {
        Seq::empty()
    } else {
        let rest = class_positions(entries.drop_last(), large);
        if entries.last().large == large {
            rest.push((entries.len() - 1) as usize)
        } else {
            rest
        }
    }
}

/// The order in which fields for the given entries are laid out: the small
/// size class first, then the large one, each in catalog order.
pub fn layout_order(entries: &Vec<CatalogEntry>) -> (r: Vec<usize>)
    ensures
        r@ == class_positions(entries@, false) + class_positions(entries@, true),
{
    let mut r: Vec<usize> = Vec::new();
    let n = entries.len();
    let mut i: usize = 0;
    while i < n
        invariant
            i <= n,
            n == entries@.len(),
            r@ == class_positions(entries@.take(i as int), false),
        decreases n - i,
    {
        proof {
            assert(entries@.take(i + 1).drop_last() =~= entries@.take(i as int));
        }
        if !entries[i].large {
            r.push(i);
        }
        i = i + 1;
    }
    proof {
        assert(entries@.take(n as int) =~= entries@);
    }
    let mut i: usize = 0;
    while i < n
        invariant
            i <= n,
            n == entries@.len(),
            r@ == class_positions(entries@, false) + class_positions(entries@.take(i as int), true),
        decreases n - i,
    {
        proof {
            assert(entries@.take(i + 1).drop_last() =~= entries@.take(i as int));
        }
        if entries[i].large {
            r.push(i);
        }
        i = i + 1;
    }
    proof {
        assert(entries@.take(n as int) =~= entries@);
    }
    r
}

/// What an edited count field writes into the model: the parsed count, or
/// zero when the text does not parse.
pub open spec fn edited_count(t: Seq<char>) -> u64 {
    match count_parse(t) {
        Some(v) => v,
        None => 0,
    }
}

/// First-match lookup among `(id, count)` pairs.
pub open spec fn pair_lookup(ps: Seq<(u64, u64)>, id: u64) -> Option<u64>
    decreases ps.len(),
{
    if ps.len() == 0 {
        None
    } else if ps[0].0 == id {
        Some(ps[0].1)
    } else {
        pair_lookup(ps.drop_first(), id)
    }
}

/// The `(id, count)` pairs present in a collection, in catalog order.
pub open spec fn present_pairs(ids: Seq<u64>, counts: Seq<Option<u64>>) -> Seq<(u64, u64)>
    decreases ids.len(),
{
    if ids.len() == 0 {
        Seq::empty()
    } else {
        let rest = present_pairs(ids.drop_first(), counts.drop_first());
        match counts[0] {
            Some(c) => seq![(ids[0], c)] + rest,
            None => rest,
        }
    }
}

pub proof fn lemma_pair_lookup_snoc(ps: Seq<(u64, u64)>, q: (u64, u64), id: u64)
    ensures
        pair_lookup(ps.push(q), id) == match pair_lookup(ps, id) {
            Some(c) => Some(c),
            None => if q.0 == id {
                Some(q.1)
            } else {
                None
            },
        },
    decreases ps.len(),
{
    if ps.len() == 0 {
        assert(ps.push(q)[0] == q);
        assert(ps.push(q).drop_first() =~= ps);
    } else {
        assert(ps.push(q).drop_first() =~= ps.drop_first().push(q));
        assert(ps.push(q)[0] == ps[0]);
        lemma_pair_lookup_snoc(ps.drop_first(), q, id);
    }
}

/// One keyed collection binding: the item ids in catalog order, the bound
/// model counts, the displayed field texts, and the id-to-position lookup
/// table.
pub struct Collection {
    items: Vec<u64>,
    counts: Vec<Option<u64>>,
    texts: Vec<String>,
    index: HashMap<u64, usize>,
}

impl Collection {
    /// Item identifiers, in catalog order.
    pub closed spec fn ids(self) -> Seq<u64> {
        self.items@
    }

    /// The bound model counts, by position; `None` stands for an absent
    /// key, which the model reads as a count of zero.
    pub closed spec fn counts_seq(self) -> Seq<Option<u64>> {
        self.counts@
    }

    /// The displayed field texts, by position.
    pub closed spec fn texts_seq(self) -> Seq<Seq<char>> {
        self.texts@.map_values(|t: String| t@)
    }

    pub open spec fn len_spec(self) -> nat {
        self.ids().len()
    }

    /// Well-formedness: parallel columns, unique ids, and a lookup table
    /// that is exactly the inverse of the id column.
    pub closed spec fn wf(self) -> bool {
        &&& self.counts@.len() == self.items@.len()
        &&& self.texts@.len() == self.items@.len()
        &&& forall|i: int, j: int|
            0 <= i < j < self.items@.len() ==> self.items@[i] != self.items@[j]
        &&& forall|i: int|
            0 <= i < self.items@.len() ==> self.index@.contains_key(#[trigger] self.items@[i])
                && self.index@[self.items@[i]] == i
        &&& forall|k: u64|
            #[trigger] self.index@.contains_key(k) ==> self.index@[k] < self.items@.len()
                && self.items@[self.index@[k] as int] == k
    }

    /// Create the binding for the given catalog entries: every count
    /// absent, every field blank.
    pub fn new(entries: &Vec<CatalogEntry>) -> (r: Collection)
        requires
            unique_entry_ids(entries@),
        ensures
            r.wf(),
            r.ids() == entry_ids(entries@),
            r.counts_seq() =~= Seq::new(entries@.len(), |j: int| None::<u64>),
            r.texts_seq() =~= Seq::new(entries@.len(), |j: int| Seq::<char>::empty()),
    {
        let n = entries.len();
        let mut items: Vec<u64> = Vec::new();
        let mut counts: Vec<Option<u64>> = Vec::new();
        let mut texts: Vec<String> = Vec::new();
        let mut index: HashMap<u64, usize> = HashMap::new();
        let mut i: usize = 0;
        while i < n
            invariant
                i <= n,
                n == entries@.len(),
                unique_entry_ids(entries@),
                items@ =~= entry_ids(entries@.take(i as int)),
                counts@.len() == i,
                texts@.len() == i,
                forall|j: int| 0 <= j < i ==> counts@[j] is None,
                forall|j: int| 0 <= j < i ==> (#[trigger] texts@[j])@ =~= Seq::<char>::empty(),
                forall|j: int|
                    0 <= j < i ==> index@.contains_key(#[trigger] items@[j])
                        && index@[items@[j]] == j,
                forall|k: u64|
                    #[trigger] index@.contains_key(k) ==> index@[k] < i
                        && items@[index@[k] as int] == k,
            decreases n - i,
        {
            let e = entries[i];
            proof {
                assert(entry_ids(entries@.take(i + 1)) =~= entry_ids(entries@.take(i as int)).push(
                    e.id,
                ));
            }
            items.push(e.id);
            counts.push(None);
            texts.push(String::new());
            index.insert(e.id, i);
            i = i + 1;
        }
        proof {
            assert(entries@.take(n as int) =~= entries@);
        }
        Collection { items, counts, texts, index }
    }

    /// Constant-time lookup of the field position for an item id.
    pub fn find(&self, id: u64) -> (r: Option<usize>)
        requires
            self.wf(),
        ensures
            match r {
                Some(j) => j < self.len_spec() && self.ids()[j as int] == id,
                None => forall|j: int| 0 <= j < self.len_spec() ==> self.ids()[j] != id,
            },
    {
        match self.index.get(&id) {
            Some(j) => Some(*j),
            None => None,
        }
    }

    /// Record an edit of the field at `pos`: the text is written to the
    /// field, and the model count becomes the parsed text, zero when the
    /// text does not parse.  The key is now present even for a zero count.
    pub fn edit(&mut self, pos: usize, text: String)
        requires
            old(self).wf(),
            pos < old(self).len_spec(),
        ensures
            final(self).wf(),
            final(self).ids() == old(self).ids(),
            final(self).counts_seq() =~= old(self).counts_seq().update(
                pos as int,
                Some(edited_count(text@)),
            ),
            final(self).texts_seq() =~= old(self).texts_seq().update(pos as int, text@),
    {
        let v = match parse_count(text.as_str()) {
            Some(v) => v,
            None => 0,
        };
        self.counts[pos] = Some(v);
        self.texts[pos] = text;
    }

    /// Batched refresh after a load: every field is first blanked and every
    /// count dropped, then each loaded `(id, count)` pair overwrites the
    /// field and count of its item, if the catalog knows the id.  Items the
    /// loaded document does not mention stay blank, and pairs whose id the
    /// catalog does not know are dropped.
    pub fn refresh(&mut self, pairs: &Vec<(u64, u64)>)
        requires
            old(self).wf(),
        ensures
            final(self).wf(),
            final(self).ids() == old(self).ids(),
            forall|j: int|
                0 <= j < final(self).len_spec() ==> match pair_lookup(
                    pairs@,
                    #[trigger] final(self).ids()[j],
                ) {
                    Some(c) => final(self).counts_seq()[j] == Some(c)
                        && final(self).texts_seq()[j] == dec_digits(c as int),
                    None => final(self).counts_seq()[j] is None
                        && final(self).texts_seq()[j] =~= Seq::<char>::empty(),
                },
    {
        let n = self.items.len();
        let mut j: usize = 0;
        while j < n
            invariant
                j <= n,
                n == old(self).len_spec(),
                self.wf(),
                self.ids() == old(self).ids(),
                self.index@ == old(self).index@,
                forall|k: int| 0 <= k < j ==> self.counts@[k] is None,
                forall|k: int| 0 <= k < j ==> (#[trigger] self.texts@[k])@ =~= Seq::<char>::empty(),
                forall|k: int| j <= k < n ==> self.counts@[k] == old(self).counts@[k],
                forall|k: int| j <= k < n ==> self.texts@[k] == old(self).texts@[k],
            decreases n - j,
        {
            self.counts[j] = None;
            self.texts[j] = String::new();
            j = j + 1;
        }
        let ghost blanked = *self;
        let m = pairs.len();
        let mut p: usize = 0;
        while p < m
            invariant
                p <= m,
                m == pairs@.len(),
                self.wf(),
                self.ids() == old(self).ids(),
                self.len_spec() == n,
                forall|j: int|
                    0 <= j < n ==> match pair_lookup(
                        pairs@.take(p as int),
                        #[trigger] self.ids()[j],
                    ) {
                        Some(c) => self.counts_seq()[j] == Some(c) && self.texts_seq()[j]
                            == dec_digits(c as int),
                        None => self.counts_seq()[j] is None && self.texts_seq()[j]
                            =~= Seq::<char>::empty(),
                    },
            decreases m - p,
        {
            proof {
                assert(pairs@.take(p + 1) =~= pairs@.take(p as int).push(pairs@[p as int]));
                lemma_pair_lookup_snoc(pairs@.take(p as int), pairs@[p as int], 0);
            }
            let (id, c) = pairs[p];
            let slot = match self.index.get(&id) {
                Some(j) => Some(*j),
                None => None,
            };
            match slot {
                Some(j) => {
                    let already = self.counts[j].is_some();
                    if !already {
                        self.counts[j] = Some(c);
                        self.texts[j] = format_count(c);
                    }
                    proof {
                        assert forall|k: int| 0 <= k < n implies match pair_lookup(
                            pairs@.take(p + 1),
                            #[trigger] self.ids()[k],
                        ) {
                            Some(cc) => self.counts_seq()[k] == Some(cc) && self.texts_seq()[k]
                                == dec_digits(cc as int),
                            None => self.counts_seq()[k] is None && self.texts_seq()[k]
                                =~= Seq::<char>::empty(),
                        } by {
                            lemma_pair_lookup_snoc(
                                pairs@.take(p as int),
                                pairs@[p as int],
                                self.ids()[k],
                            );
                        }
                    }
                },
                None => {
                    proof {
                        assert forall|k: int| 0 <= k < n implies match pair_lookup(
                            pairs@.take(p + 1),
                            #[trigger] self.ids()[k],
                        ) {
                            Some(cc) => self.counts_seq()[k] == Some(cc) && self.texts_seq()[k]
                                == dec_digits(cc as int),
                            None => self.counts_seq()[k] is None && self.texts_seq()[k]
                                =~= Seq::<char>::empty(),
                        } by {
                            lemma_pair_lookup_snoc(
                                pairs@.take(p as int),
                                pairs@[p as int],
                                self.ids()[k],
                            );
                        }
                    }
                },
            }
            p = p + 1;
        }
        proof {
            assert(pairs@.take(m as int) =~= pairs@);
        }
    }

    /// The `(id, count)` pairs the collection currently holds, for export
    /// to the calculator or the serializer.
    pub fn export_pairs(&self) -> (r: Vec<(u64, u64)>)
        requires
            self.wf(),
        ensures
            r@ == present_pairs(self.ids(), self.counts_seq()),
    {
        let n = self.items.len();
        let mut r: Vec<(u64, u64)> = Vec::new();
        let mut j: usize = 0;
        while j < n
            invariant
                j <= n,
                n == self.len_spec(),
                self.wf(),
                r@ =~= present_pairs(self.ids().take(j as int), self.counts_seq().take(j as int)),
            decreases n - j,
        {
            proof {
                lemma_present_pairs_snoc(
                    self.ids().take(j as int),
                    self.counts_seq().take(j as int),
                    self.ids()[j as int],
                    self.counts_seq()[j as int],
                );
                assert(self.ids().take(j + 1) =~= self.ids().take(j as int).push(
                    self.ids()[j as int],
                ));
                assert(self.counts_seq().take(j + 1) =~= self.counts_seq().take(j as int).push(
                    self.counts_seq()[j as int],
                ));
            }
            match self.counts[j] {
                Some(c) => {
                    let id = self.items[j];
                    r.push((id, c));
                },
                None => {},
            }
            j = j + 1;
        }
        proof {
            assert(self.ids().take(n as int) =~= self.ids());
            assert(self.counts_seq().take(n as int) =~= self.counts_seq());
        }
        r
    }

    /// The count the model reads for position `j`: the stored count, zero
    /// when the key is absent.
    pub fn count_at(&self, j: usize) -> (r: Option<u64>)
        requires
            self.wf(),
            j < self.len_spec(),
        ensures
            r == self.counts_seq()[j as int],
    {
        self.counts[j]
    }

    /// The text the field at position `j` currently displays.
    pub fn text_at(&self, j: usize) -> (r: &String)
        requires
            self.wf(),
            j < self.len_spec(),
        ensures
            r@ == self.texts_seq()[j as int],
    {
        &self.texts[j]
    }

    /// The item id at position `j`.
    pub fn id_at(&self, j: usize) -> (r: u64)
        requires
            self.wf(),
            j < self.len_spec(),
        ensures
            r == self.ids()[j as int],
    {
        self.items[j]
    }

    /// Number of bound fields.
    pub fn len(&self) -> (r: usize)
        ensures
            r == self.len_spec(),
    {
        self.items.len()
    }
}

/// Looking up an id that occurs nowhere among the ids yields nothing.
pub proof fn lemma_present_pairs_absent(ids: Seq<u64>, counts: Seq<Option<u64>>, id: u64)
    requires
        ids.len() == counts.len(),
        forall|k: int| 0 <= k < ids.len() ==> ids[k] != id,
    ensures
        pair_lookup(present_pairs(ids, counts), id) is None,
    decreases ids.len(),
{
    if ids.len() > 0 {
        lemma_present_pairs_absent(ids.drop_first(), counts.drop_first(), id);
        match counts[0] {
            Some(c0) => {
                let ps = seq![(ids[0], c0)] + present_pairs(ids.drop_first(), counts.drop_first());
                assert(ps[0] == (ids[0], c0));
                assert(ps.drop_first() =~= present_pairs(ids.drop_first(), counts.drop_first()));
            },
            None => {},
        }
    }
}

/// Looking an item's id up among a collection's present pairs yields
/// exactly the item's stored count: the heart of the save round trip.
pub proof fn lemma_present_pairs_lookup(ids: Seq<u64>, counts: Seq<Option<u64>>, j: int)
    requires
        ids.len() == counts.len(),
        forall|a: int, b: int| 0 <= a < b < ids.len() ==> ids[a] != ids[b],
        0 <= j < ids.len(),
    ensures
        pair_lookup(present_pairs(ids, counts), ids[j]) == counts[j],
    decreases ids.len(),
{
    if j == 0 {
        match counts[0] {
            Some(c0) => {
                let ps = seq![(ids[0], c0)] + present_pairs(ids.drop_first(), counts.drop_first());
                assert(ps[0] == (ids[0], c0));
            },
            None => {
                assert(forall|k: int|
                    0 <= k < ids.drop_first().len() ==> ids.drop_first()[k] != ids[0]);
                lemma_present_pairs_absent(ids.drop_first(), counts.drop_first(), ids[0]);
            },
        }
    } else {
        lemma_present_pairs_lookup(ids.drop_first(), counts.drop_first(), j - 1);
        assert(ids.drop_first()[j - 1] == ids[j]);
        assert(counts.drop_first()[j - 1] == counts[j]);
        match counts[0] {
            Some(c0) => {
                let ps = seq![(ids[0], c0)] + present_pairs(ids.drop_first(), counts.drop_first());
                assert(ps[0] == (ids[0], c0));
                assert(ps.drop_first() =~= present_pairs(ids.drop_first(), counts.drop_first()));
                assert(ids[j] != ids[0]);
            },
            None => {},
        }
    }
}

/// What well-formedness guarantees to a caller: the columns run in
/// parallel and the item ids never repeat.
pub broadcast proof fn lemma_collection_wf(c: Collection)
    requires
        #[trigger] c.wf(),
    ensures
        c.counts_seq().len() == c.len_spec(),
        c.texts_seq().len() == c.len_spec(),
        forall|i: int, j: int| 0 <= i < j < c.len_spec() ==> c.ids()[i] != c.ids()[j],
{
}

pub proof fn lemma_present_pairs_snoc(
    ids: Seq<u64>,
    counts: Seq<Option<u64>>,
    id: u64,
    count: Option<u64>,
)
    requires
        ids.len() == counts.len(),
    ensures
        present_pairs(ids.push(id), counts.push(count)) == present_pairs(ids, counts)
            + match count {
            Some(c) => seq![(id, c)],
            None => Seq::<(u64, u64)>::empty(),
        },
    decreases ids.len(),
{
    if ids.len() == 0 {
        assert(ids.push(id)[0] == id);
        assert(counts.push(count)[0] == count);
        assert(ids.push(id).drop_first() =~= ids);
        assert(counts.push(count).drop_first() =~= counts);
        match count {
            Some(c) => {
                assert(present_pairs(ids, counts) =~= Seq::<(u64, u64)>::empty());
                assert(present_pairs(ids.push(id), counts.push(count)) == seq![
                    (ids.push(id)[0], c),
                ] + present_pairs(ids.push(id).drop_first(), counts.push(count).drop_first()));
                assert(present_pairs(ids.push(id), counts.push(count)) =~= seq![(id, c)]);
                assert(present_pairs(ids, counts) + seq![(id, c)] =~= seq![(id, c)]);
            },
            None => {
                assert(present_pairs(ids.push(id), counts.push(count)) =~= present_pairs(
                    ids,
                    counts,
                ) + Seq::<(u64, u64)>::empty());
            },
        }
    } else {
        assert(ids.push(id).drop_first() =~= ids.drop_first().push(id));
        assert(counts.push(count).drop_first() =~= counts.drop_first().push(count));
        lemma_present_pairs_snoc(ids.drop_first(), counts.drop_first(), id, count);
        assert(ids.push(id)[0] == ids[0]);
        assert(counts.push(count)[0] == counts[0]);
        match counts[0] {
            Some(c0) => {
                assert(seq![(ids[0], c0)] + (present_pairs(ids.drop_first(), counts.drop_first())
                    + match count {
                    Some(c) => seq![(id, c)],
                    None => Seq::<(u64, u64)>::empty(),
                }) =~= (seq![(ids[0], c0)] + present_pairs(ids.drop_first(), counts.drop_first()))
                    + match count {
                    Some(c) => seq![(id, c)],
                    None => Seq::<(u64, u64)>::empty(),
                });
            },
            None => {},
        }
    }
}

} // verus!
