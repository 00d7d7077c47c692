//! The tag vocabulary of a model and the analysis of one score vector:
//! per-category projection, threshold filtering and ranking.
//!
//! Scores and thresholds are unsigned fixed-point numbers in one unit; the
//! analysis only compares and subtracts them. `config::SCORE_ONE` is the
//! score of a confidence of 1.

use vstd::prelude::*;
use crate::ranking::{rank, ranked, Ranked};
use crate::tag_names::{kaomoji_table, kaomojis, normalize_with, normalized};
use crate::threshold::{mcut, mcut_threshold};

verus! {

/// Category code of the rating tags.
pub const RATING: u32 = 9;

/// Category code of the general tags.
pub const GENERAL: u32 = 0;

/// Category code of the character tags.
pub const CHARACTER: u32 = 4;

/// One row of the tag vocabulary. Its position among the rows is the column
/// of the model's output that scores it.
pub struct Label {
    pub name: String,
    pub category: u32,
}

/// A tag, by its position in the vocabulary, with the score it got.
#[derive(Clone, Copy, Debug)]
pub struct TagEntry {
    pub index: usize,
    pub score: u64,
}

/// Entries rank from the highest score down; equal scores rank by position
/// in the vocabulary.
impl Ranked for TagEntry {
    open spec fn precedes(self, other: Self) -> bool {
        self.score > other.score || (self.score == other.score && self.index <= other.index)
    }

    fn comes_before(&self, other: &Self) -> (b: bool) {
        self.score > other.score || (self.score == other.score && self.index <= other.index)
    }

    proof fn precedes_is_total() {
    }
}

/// Tag names with their scores, as an analysis hands them out.
pub type TagScores<'a> = Vec<(&'a str, u64)>;

/// The category codes of the rows, in row order.
pub open spec fn categories(labels: Seq<Label>) -> Seq<u32> {
    Seq::new(labels.len(), |i: int| labels[i].category)
}

/// The normalized names of the rows, in row order.
pub open spec fn tag_names(labels: Seq<Label>) -> Seq<Seq<char>> {
    Seq::new(labels.len(), |i: int| normalized(labels[i].name@))
}

/// The positions, in increasing order, of the rows whose category is `code`.
pub open spec fn indices_of(categories: Seq<u32>, code: u32) -> Seq<usize>
    decreases categories.len(),
{
    if categories.len() == 0 {
        Seq::empty()
    } else {
        let before = indices_of(categories.drop_last(), code);
        if categories.last() == code {
            before.push((categories.len() - 1) as usize)
        } else {
            before
        }
    }
}

/// `indices_of` lists exactly the positions that hold `code`, each once and
/// in increasing order. A row with any other code is in no such list.
pub proof fn lemma_indices_of(categories: Seq<u32>, code: u32)
    requires
        categories.len() <= usize::MAX,
    ensures
        forall|k: int|
            0 <= k < indices_of(categories, code).len() ==> {
                &&& (#[trigger] indices_of(categories, code)[k]) < categories.len()
                &&& categories[indices_of(categories, code)[k] as int] == code
            },
        forall|j: int, k: int|
            0 <= j < k < indices_of(categories, code).len() ==> indices_of(categories, code)[j]
                < indices_of(categories, code)[k],
        forall|i: int|
            0 <= i < categories.len() && #[trigger] categories[i] == code ==> indices_of(
                categories,
                code,
            ).contains(i as usize),
    decreases categories.len(),
{
    if categories.len() > 0 {
        let rest = categories.drop_last();
        lemma_indices_of(rest, code);
        let before = indices_of(rest, code);
        let all = indices_of(categories, code);
        assert forall|i: int| 0 <= i < categories.len() && #[trigger] categories[i] == code implies all.contains(
            i as usize,
        ) by {
            if i < rest.len() {
                assert(rest[i] == code);
                let k = choose|k: int| 0 <= k < before.len() && before[k] == i as usize;
                assert(all[k] == i as usize);
            } else {
                assert(all[all.len() - 1] == i as usize);
            }
        }
    }
}

/// The entries of the tags at `indices`, scored by `preds`.
pub open spec fn project(preds: Seq<u64>, indices: Seq<usize>) -> Seq<TagEntry> {
    Seq::new(
        indices.len(),
        |k: int| TagEntry { index: indices[k], score: preds[indices[k] as int] },
    )
}

/// The scores of the entries, in their order.
pub open spec fn scores_of(entries: Seq<TagEntry>) -> Seq<u64> {
    Seq::new(entries.len(), |k: int| entries[k].score)
}

/// Holds of the entries whose score reaches `threshold`.
pub open spec fn at_least(threshold: int) -> spec_fn(TagEntry) -> bool {
    |e: TagEntry| e.score >= threshold
}

/// The threshold in force for `entries`: the adaptive one of their scores
/// where `mcut_enabled`, else the fixed `threshold`.
pub open spec fn effective_threshold(entries: Seq<TagEntry>, threshold: u64, mcut_enabled: bool) -> int {
    if mcut_enabled {
        mcut(scores_of(entries))
    } else {
        threshold as int
    }
}

/// The entries that pass the threshold in force, in their order. An entry
/// whose score equals the threshold passes.
pub open spec fn kept(entries: Seq<TagEntry>, threshold: u64, mcut_enabled: bool) -> Seq<TagEntry> {
    entries.filter(at_least(effective_threshold(entries, threshold, mcut_enabled)))
}

/// The entries as pairs of tag name and score.
pub open spec fn labelled(tags: Seq<Seq<char>>, entries: Seq<TagEntry>) -> Seq<(Seq<char>, u64)> {
    Seq::new(entries.len(), |k: int| (tags[entries[k].index as int], entries[k].score))
}

/// An entry whose score is exactly the threshold in force is kept.
pub proof fn lemma_threshold_is_inclusive(
    entries: Seq<TagEntry>,
    threshold: u64,
    mcut_enabled: bool,
    i: int,
)
    requires
        0 <= i < entries.len(),
        entries[i].score == effective_threshold(entries, threshold, mcut_enabled),
    ensures
        kept(entries, threshold, mcut_enabled).contains(entries[i]),
{
    let pass = at_least(effective_threshold(entries, threshold, mcut_enabled));
    assert(pass(entries[i]));
    entries.lemma_filter_contains(pass, i);
}

/// Collects the entries of the tags at `indices` from one score vector.
pub fn tag_scores(preds: &[u64], indices: &Vec<usize>) -> (entries: Vec<TagEntry>)
    requires
        forall|k: int| 0 <= k < indices@.len() ==> indices@[k] < preds@.len(),
    ensures
        entries@ == project(preds@, indices@),
{
    let mut entries: Vec<TagEntry> = Vec::with_capacity(indices.len());
    let mut k: usize = 0;
    while k < indices.len()
        invariant
            k <= indices@.len(),
            forall|j: int| 0 <= j < indices@.len() ==> indices@[j] < preds@.len(),
            entries@ == project(preds@, indices@.take(k as int)),
        decreases indices.len() - k,
    {
        let i: usize = indices[k];
        entries.push(TagEntry { index: i, score: preds[i] });
        assert(entries@ =~= project(preds@, indices@.take(k + 1)));
        k += 1;
    }
    assert(indices@.take(k as int) =~= indices@);
    entries
}

/// Keeps the entries whose score reaches the threshold in force: the
/// adaptive threshold of their scores where `mcut_enabled`, else `threshold`.
pub fn filter_tags(tag_scores: Vec<TagEntry>, threshold: u64, mcut_enabled: bool) -> (out: Vec<
    TagEntry,
>)
    ensures
        out@ == kept(tag_scores@, threshold, mcut_enabled),
        forall|i: int|
            0 <= i < tag_scores@.len() && (#[trigger] tag_scores@[i]).score >= effective_threshold(
                tag_scores@,
                threshold,
                mcut_enabled,
            ) ==> out@.contains(tag_scores@[i]),
{
    let cut: u64 = if mcut_enabled {
        let mut scores: Vec<u64> = Vec::with_capacity(tag_scores.len());
        let mut k: usize = 0;
        while k < tag_scores.len()
            invariant
                k <= tag_scores@.len(),
                scores@ == scores_of(tag_scores@.take(k as int)),
            decreases tag_scores.len() - k,
        {
            scores.push(tag_scores[k].score);
            assert(scores@ =~= scores_of(tag_scores@.take(k + 1)));
            k += 1;
        }
        assert(tag_scores@.take(k as int) =~= tag_scores@);
        mcut_threshold(&scores)
    } else {
        threshold
    };
    let ghost pass = at_least(cut as int);
    let mut out: Vec<TagEntry> = Vec::new();
    let mut i: usize = 0;
    assert(tag_scores@.take(0).filter(pass) =~= out@) by {
        reveal(Seq::filter);
    }
    while i < tag_scores.len()
        invariant
            i <= tag_scores@.len(),
            pass == at_least(cut as int),
            out@ == tag_scores@.take(i as int).filter(pass),
        decreases tag_scores.len() - i,
    {
        let e: TagEntry = tag_scores[i];
        proof {
            assert(tag_scores@.take(i + 1) =~= tag_scores@.take(i as int).push(e));
            tag_scores@.take(i as int).lemma_filter_push(e, pass);
        }
        if e.score >= cut {
            out.push(e);
        }
        i += 1;
    }
    proof {
        assert(tag_scores@.take(i as int) =~= tag_scores@);
        assert forall|j: int|
            0 <= j < tag_scores@.len() && (#[trigger] tag_scores@[j]).score >= cut implies out@.contains(
            tag_scores@[j],
        ) by {
            assert(pass(tag_scores@[j]));
            tag_scores@.lemma_filter_contains(pass, j);
        }
    }
    out
}

/// The tag vocabulary of a model, split by category, with the threshold rule
/// of the general and of the character tags.
pub struct LabelAnalyzer {
    tags: Vec<String>,
    rating_indices: Vec<usize>,
    general_indices: Vec<usize>,
    character_indices: Vec<usize>,
    general_threshold: u64,
    general_mcut_enabled: bool,
    character_threshold: u64,
    character_mcut_enabled: bool,
}

/// Every position in `indices` is below `len`.
pub open spec fn all_below(indices: Seq<usize>, len: nat) -> bool {
    forall|k: int| 0 <= k < indices.len() ==> #[trigger] indices[k] < len
}

impl LabelAnalyzer {
    /// The three index lists point into the vocabulary.
    #[verifier::type_invariant]
    spec fn well_formed(self) -> bool {
        &&& all_below(self.rating_indices@, self.tags@.len())
        &&& all_below(self.general_indices@, self.tags@.len())
        &&& all_below(self.character_indices@, self.tags@.len())
    }

    /// The tag names, in the order of the model's output columns.
    pub closed spec fn tags(self) -> Seq<Seq<char>> {
        self.tags.deep_view()
    }

    /// The positions of the rating tags, in increasing order.
    pub closed spec fn rating_indices(self) -> Seq<usize> {
        self.rating_indices@
    }

    /// The positions of the general tags, in increasing order.
    pub closed spec fn general_indices(self) -> Seq<usize> {
        self.general_indices@
    }

    /// The positions of the character tags, in increasing order.
    pub closed spec fn character_indices(self) -> Seq<usize> {
        self.character_indices@
    }

    /// The fixed threshold of the general tags.
    pub closed spec fn general_threshold(self) -> u64 {
        self.general_threshold
    }

    /// Whether the general tags use the adaptive threshold.
    pub closed spec fn general_mcut_enabled(self) -> bool {
        self.general_mcut_enabled
    }

    /// The fixed threshold of the character tags.
    pub closed spec fn character_threshold(self) -> u64 {
        self.character_threshold
    }

    /// Whether the character tags use the adaptive threshold.
    pub closed spec fn character_mcut_enabled(self) -> bool {
        self.character_mcut_enabled
    }

    /// The rating tags of one score vector, all of them, ranked.
    pub open spec fn ratings_of(self, preds: Seq<u64>) -> Seq<(Seq<char>, u64)> {
        labelled(self.tags(), ranked(project(preds, self.rating_indices())))
    }

    /// The general tags of one score vector that pass their threshold, ranked.
    pub open spec fn general_of(self, preds: Seq<u64>) -> Seq<(Seq<char>, u64)> {
        labelled(
            self.tags(),
            ranked(
                kept(
                    project(preds, self.general_indices()),
                    self.general_threshold(),
                    self.general_mcut_enabled(),
                ),
            ),
        )
    }

    /// The character tags of one score vector that pass their threshold,
    /// ranked.
    pub open spec fn character_of(self, preds: Seq<u64>) -> Seq<(Seq<char>, u64)> {
        labelled(
            self.tags(),
            ranked(
                kept(
                    project(preds, self.character_indices()),
                    self.character_threshold(),
                    self.character_mcut_enabled(),
                ),
            ),
        )
    }

    /// `r` is the analysis of the score vector `preds`.
    pub open spec fn is_analysis(
        self,
        preds: Seq<u64>,
        r: (Seq<(Seq<char>, u64)>, Seq<(Seq<char>, u64)>, Seq<(Seq<char>, u64)>),
    ) -> bool {
        &&& r.0 == self.ratings_of(preds)
        &&& r.1 == self.general_of(preds)
        &&& r.2 == self.character_of(preds)
    }

    /// Builds the analyzer from the rows of the vocabulary, in the order of
    /// the model's output columns. Names are normalized; each row goes to the
    /// index list of its category, and a row of any other category to none.
    pub fn new(
        labels: Vec<Label>,
        general_threshold: u64,
        general_mcut_enabled: bool,
        character_threshold: u64,
        character_mcut_enabled: bool,
    ) -> (analyzer: Self)
        ensures
            analyzer.tags() == tag_names(labels@),
            analyzer.rating_indices() == indices_of(categories(labels@), RATING),
            analyzer.general_indices() == indices_of(categories(labels@), GENERAL),
            analyzer.character_indices() == indices_of(categories(labels@), CHARACTER),
            analyzer.general_threshold() == general_threshold,
            analyzer.general_mcut_enabled() == general_mcut_enabled,
            analyzer.character_threshold() == character_threshold,
            analyzer.character_mcut_enabled() == character_mcut_enabled,
    {
        let table = kaomojis();
        let mut tags: Vec<String> = Vec::with_capacity(labels.len());
        let mut rating_indices: Vec<usize> = Vec::new();
        let mut general_indices: Vec<usize> = Vec::new();
        let mut character_indices: Vec<usize> = Vec::new();
        let ghost cats = categories(labels@);
        let mut i: usize = 0;
        while i < labels.len()
            invariant
                i <= labels@.len(),
                cats == categories(labels@),
                table.deep_view() == kaomoji_table(),
                tags@.len() == i,
                tags.deep_view() == tag_names(labels@.take(i as int)),
                rating_indices@ == indices_of(cats.take(i as int), RATING),
                general_indices@ == indices_of(cats.take(i as int), GENERAL),
                character_indices@ == indices_of(cats.take(i as int), CHARACTER),
                all_below(rating_indices@, i as nat),
                all_below(general_indices@, i as nat),
                all_below(character_indices@, i as nat),
            decreases labels.len() - i,
        {
            let label = &labels[i];
            let tag = normalize_with(&table, label.name.clone());
            let ghost names_before = tags.deep_view();
            let ghost tags_before = tags@;
            tags.push(tag);
            let category: u32 = label.category;
            proof {
                assert(cats.take(i + 1).drop_last() =~= cats.take(i as int));
                assert(cats.take(i + 1).last() == category);
                let names = tag_names(labels@.take(i + 1));
                assert forall|j: int| 0 <= j < names.len() implies tags.deep_view()[j] == names[j] by {
                    if j < i {
                        assert(tags@[j] == tags_before[j]);
                        assert(names_before[j] == tag_names(labels@.take(i as int))[j]);
                    }
                }
                assert(tags.deep_view() =~= names);
            }
            if category == RATING {
                rating_indices.push(i);
            } else if category == GENERAL {
                general_indices.push(i);
            } else if category == CHARACTER {
                character_indices.push(i);
            }
            i += 1;
        }
        proof {
            assert(labels@.take(i as int) =~= labels@);
            assert(cats.take(i as int) =~= cats);
            assert(tags@.len() == tags.deep_view().len());
        }
        LabelAnalyzer {
            tags,
            rating_indices,
            general_indices,
            character_indices,
            general_threshold,
            general_mcut_enabled,
            character_threshold,
            character_mcut_enabled,
        }
    }

    /// The number of tags in the vocabulary.
    pub fn tag_count(&self) -> (n: usize)
        ensures
            n == self.tags().len(),
    {
        self.tags.len()
    }

    /// Attaches to each entry the name of its tag.
    fn named<'a>(&'a self, entries: &Vec<TagEntry>) -> (out: TagScores<'a>)
        requires
            forall|k: int| 0 <= k < entries@.len() ==> (#[trigger] entries@[k]).index < self.tags().len(),
        ensures
            out.deep_view() == labelled(self.tags(), entries@),
    {
        let mut out: Vec<(&'a str, u64)> = Vec::with_capacity(entries.len());
        let mut k: usize = 0;
        while k < entries.len()
            invariant
                k <= entries@.len(),
                forall|j: int|
                    0 <= j < entries@.len() ==> (#[trigger] entries@[j]).index < self.tags@.len(),
                out@.len() == k,
                out.deep_view() == labelled(self.tags.deep_view(), entries@.take(k as int)),
            decreases entries.len() - k,
        {
            let e: TagEntry = entries[k];
            let ghost pairs_before = out.deep_view();
            let ghost out_before = out@;
            out.push((self.tags[e.index].as_str(), e.score));
            proof {
                let pairs = labelled(self.tags.deep_view(), entries@.take(k + 1));
                assert forall|j: int| 0 <= j < pairs.len() implies out.deep_view()[j] == pairs[j] by {
                    if j < k {
                        assert(out@[j] == out_before[j]);
                        assert(pairs_before[j] == labelled(
                            self.tags.deep_view(),
                            entries@.take(k as int),
                        )[j]);
                    }
                }
                assert(out.deep_view() =~= pairs);
            }
            k += 1;
        }
        assert(entries@.take(k as int) =~= entries@);
        out
    }

    /// Turns one score vector into the ranked tags of each category: the
    /// ratings, all of them; the general and the character tags, those that
    /// reach the threshold in force for their category. Each list runs from
    /// the highest score down, equal scores in vocabulary order.
    pub fn analyze<'a>(&'a self, preds: &[u64]) -> (r: (TagScores<'a>, TagScores<'a>, TagScores<'a>))
        requires
            preds@.len() == self.tags().len(),
        ensures
            r.0.deep_view() == self.ratings_of(preds@),
            r.1.deep_view() == self.general_of(preds@),
            r.2.deep_view() == self.character_of(preds@),
    {
        proof {
            use_type_invariant(self);
        }
        let ratings = tag_scores(preds, &self.rating_indices);
        let ratings = rank(&ratings);

        let general = tag_scores(preds, &self.general_indices);
        let general = filter_tags(general, self.general_threshold, self.general_mcut_enabled);
        let general = rank(&general);

        let character = tag_scores(preds, &self.character_indices);
        let character = filter_tags(
            character,
            self.character_threshold,
            self.character_mcut_enabled,
        );
        let character = rank(&character);

        proof {
            lemma_entries_in_range(preds@, self.rating_indices@, self.tags@.len());
            lemma_entries_in_range(preds@, self.general_indices@, self.tags@.len());
            lemma_entries_in_range(preds@, self.character_indices@, self.tags@.len());
            lemma_kept_in_range(
                project(preds@, self.general_indices@),
                self.general_threshold,
                self.general_mcut_enabled,
                self.tags@.len(),
            );
            lemma_kept_in_range(
                project(preds@, self.character_indices@),
                self.character_threshold,
                self.character_mcut_enabled,
                self.tags@.len(),
            );
            lemma_ranked_in_range(project(preds@, self.rating_indices@), self.tags@.len());
            lemma_ranked_in_range(
                kept(
                    project(preds@, self.general_indices@),
                    self.general_threshold,
                    self.general_mcut_enabled,
                ),
                self.tags@.len(),
            );
            lemma_ranked_in_range(
                kept(
                    project(preds@, self.character_indices@),
                    self.character_threshold,
                    self.character_mcut_enabled,
                ),
                self.tags@.len(),
            );
        }
        (self.named(&ratings), self.named(&general), self.named(&character))
    }

    /// Analyzes the rows of a score matrix, one row per image, and returns
    /// the analyses in the order of the rows.
    pub fn analyze_batch<'a>(&'a self, rows: &Vec<Vec<u64>>) -> (out: Vec<
        (TagScores<'a>, TagScores<'a>, TagScores<'a>),
    >)
        requires
            forall|i: int| 0 <= i < rows@.len() ==> (#[trigger] rows@[i])@.len() == self.tags().len(),
        ensures
            out@.len() == rows@.len(),
            forall|i: int|
                0 <= i < rows@.len() ==> self.is_analysis(
                    rows@[i]@,
                    (#[trigger] out@[i]).deep_view(),
                ),
    {
        let mut out: Vec<(TagScores<'a>, TagScores<'a>, TagScores<'a>)> = Vec::with_capacity(
            rows.len(),
        );
        let mut i: usize = 0;
        while i < rows.len()
            invariant
                i <= rows@.len(),
                out@.len() == i,
                forall|j: int|
                    0 <= j < rows@.len() ==> (#[trigger] rows@[j])@.len() == self.tags().len(),
                forall|j: int|
                    0 <= j < i ==> self.is_analysis(rows@[j]@, (#[trigger] out@[j]).deep_view()),
            decreases rows.len() - i,
        {
            let r = self.analyze(rows[i].as_slice());
            out.push(r);
            i += 1;
        }
        out
    }
}

/// Every entry names a tag below `len`.
pub open spec fn entries_below(entries: Seq<TagEntry>, len: nat) -> bool {
    forall|k: int| 0 <= k < entries.len() ==> (#[trigger] entries[k]).index < len
}

proof fn lemma_entries_in_range(preds: Seq<u64>, indices: Seq<usize>, len: nat)
    requires
        all_below(indices, len),
    ensures
        entries_below(project(preds, indices), len),
{
}

proof fn lemma_kept_in_range(entries: Seq<TagEntry>, threshold: u64, mcut_enabled: bool, len: nat)
    requires
        entries_below(entries, len),
    ensures
        entries_below(kept(entries, threshold, mcut_enabled), len),
{
    let pass = at_least(effective_threshold(entries, threshold, mcut_enabled));
    let out = kept(entries, threshold, mcut_enabled);
    assert forall|k: int| 0 <= k < out.len() implies (#[trigger] out[k]).index < len by {
        assert(out.contains(out[k]));
        entries.lemma_filter_contains_rev(pass, out[k]);
        let i = choose|i: int| 0 <= i < entries.len() && entries[i] == out[k];
        assert(entries[i].index < len);
    }
}

proof fn lemma_ranked_in_range(entries: Seq<TagEntry>, len: nat)
    requires
        entries_below(entries, len),
    ensures
        entries_below(ranked(entries), len),
{
    crate::ranking::lemma_ranked_is_sorted_permutation(entries);
    let out = ranked(entries);
    assert forall|k: int| 0 <= k < out.len() implies (#[trigger] out[k]).index < len by {
        assert(out.contains(out[k]));
        vstd::seq_lib::to_multiset_contains(out, out[k]);
        vstd::seq_lib::to_multiset_contains(entries, out[k]);
        let i = choose|i: int| 0 <= i < entries.len() && entries[i] == out[k];
        assert(entries[i].index < len);
    }
}

} // verus!
