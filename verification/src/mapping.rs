//! The association from picker labels to the targets they stand for.

use crate::entity::{Entity, EntityView};
use crate::text::texts;
use vstd::prelude::*;

verus! {

/// One label together with the value of its target.
pub type Pair = (Seq<char>, EntityView);

/// The association built by inserting `pairs` one after the other: a label
/// inserted again takes the target of its latest insertion.
pub open spec fn map_of(pairs: Seq<Pair>) -> Map<Seq<char>, EntityView>
    decreases pairs.len(),
{
    if pairs.len() == 0 {
        Map::empty()
    } else {
        map_of(pairs.drop_last()).insert(pairs.last().0, pairs.last().1)
    }
}

/// The labels of `pairs` without repetitions, each at the place of its
/// first insertion.
pub open spec fn labels_of(pairs: Seq<Pair>) -> Seq<Seq<char>>
    decreases pairs.len(),
{
    if pairs.len() == 0 {
        Seq::empty()
    } else {
        let rest = labels_of(pairs.drop_last());
        if rest.contains(pairs.last().0) {
            rest
        } else {
            rest.push(pairs.last().0)
        }
    }
}

/// Whether the labels of `pairs` are pairwise different.
pub open spec fn distinct_labels(pairs: Seq<Pair>) -> bool {
    forall|i: int, j: int|
        0 <= i < j < pairs.len() ==> (#[trigger] pairs[i]).0 != (#[trigger] pairs[j]).0
}

/// A label is in the association exactly if some pair carries it.
pub proof fn lemma_map_of_contains(pairs: Seq<Pair>, label: Seq<char>)
    ensures
        map_of(pairs).contains_key(label) <==> exists|i: int|
            0 <= i < pairs.len() && (#[trigger] pairs[i]).0 == label,
    decreases pairs.len(),
{
    if pairs.len() > 0 {
        let rest = pairs.drop_last();
        lemma_map_of_contains(rest, label);
        if map_of(pairs).contains_key(label) {
            if pairs.last().0 == label {
                assert(pairs[pairs.len() - 1].0 == label);
            } else {
                let i = choose|i: int| 0 <= i < rest.len() && (#[trigger] rest[i]).0 == label;
                assert(pairs[i].0 == label);
            }
        }
        if exists|i: int| 0 <= i < pairs.len() && (#[trigger] pairs[i]).0 == label {
            let i = choose|i: int| 0 <= i < pairs.len() && (#[trigger] pairs[i]).0 == label;
            if i < pairs.len() - 1 {
                assert(rest[i].0 == label);
            }
        }
    }
}

/// A label stands for the target of the last pair that carries it.
pub proof fn lemma_map_of_latest(pairs: Seq<Pair>, i: int)
    requires
        0 <= i < pairs.len(),
        forall|j: int| i < j < pairs.len() ==> (#[trigger] pairs[j]).0 != pairs[i].0,
    ensures
        map_of(pairs).contains_key(pairs[i].0),
        map_of(pairs)[pairs[i].0] == pairs[i].1,
    decreases pairs.len(),
{
    if i < pairs.len() - 1 {
        let rest = pairs.drop_last();
        assert forall|j: int| i < j < rest.len() implies (#[trigger] rest[j]).0 != rest[i].0 by {
            assert(pairs[j].0 != pairs[i].0);
        }
        lemma_map_of_latest(rest, i);
    }
}

/// The labels kept by `labels_of` are the labels of the association.
pub proof fn lemma_labels_of_contains(pairs: Seq<Pair>, label: Seq<char>)
    ensures
        labels_of(pairs).contains(label) <==> map_of(pairs).contains_key(label),
    decreases pairs.len(),
{
    if pairs.len() > 0 {
        let rest = pairs.drop_last();
        lemma_labels_of_contains(rest, label);
        let kept = labels_of(rest);
        if !kept.contains(pairs.last().0) {
            let grown = kept.push(pairs.last().0);
            if kept.contains(label) {
                let k = choose|k: int| 0 <= k < kept.len() && kept[k] == label;
                assert(grown[k] == label);
            }
            assert(grown[grown.len() - 1] == pairs.last().0);
        }
    }
}

/// No label occurs twice in `labels_of`.
pub proof fn lemma_labels_of_distinct(pairs: Seq<Pair>)
    ensures
        labels_of(pairs).no_duplicates(),
    decreases pairs.len(),
{
    if pairs.len() > 0 {
        lemma_labels_of_distinct(pairs.drop_last());
    }
}

/// When the labels of `pairs` are pairwise different, nothing is lost:
/// every label keeps its place and stands for its own target.
pub proof fn lemma_distinct_labels_kept(pairs: Seq<Pair>)
    requires
        distinct_labels(pairs),
    ensures
        labels_of(pairs) == pairs.map_values(|p: Pair| p.0),
        forall|i: int|
            0 <= i < pairs.len() ==> map_of(pairs).contains_key((#[trigger] pairs[i]).0)
                && map_of(pairs)[pairs[i].0] == pairs[i].1,
    decreases pairs.len(),
{
    if pairs.len() > 0 {
        let rest = pairs.drop_last();
        let last = pairs.len() - 1;
        assert(distinct_labels(rest)) by {
            assert forall|i: int, j: int| 0 <= i < j < rest.len() implies (#[trigger] rest[i]).0
                != (#[trigger] rest[j]).0 by {
                assert(pairs[i].0 != pairs[j].0);
            }
        }
        lemma_distinct_labels_kept(rest);
        let kept = labels_of(rest);
        if kept.contains(pairs.last().0) {
            let k = choose|k: int| 0 <= k < kept.len() && kept[k] == pairs.last().0;
            assert(pairs[k].0 != pairs[last].0);
        }
        assert forall|i: int| 0 <= i < pairs.len() implies map_of(pairs).contains_key(
            (#[trigger] pairs[i]).0,
        ) && map_of(pairs)[pairs[i].0] == pairs[i].1 by {
            assert forall|j: int| i < j < pairs.len() implies (#[trigger] pairs[j]).0
                != pairs[i].0 by {
                assert(pairs[i].0 != pairs[j].0);
            }
            lemma_map_of_latest(pairs, i);
        }
    }
}

/// Among pairwise different labels, giving the label at place `i` a new
/// target changes the association for that label and for no other.
pub proof fn lemma_target_replaced(pairs: Seq<Pair>, i: int, target: EntityView)
    requires
        distinct_labels(pairs),
        0 <= i < pairs.len(),
    ensures
        distinct_labels(pairs.update(i, (pairs[i].0, target))),
        map_of(pairs.update(i, (pairs[i].0, target))) == map_of(pairs).insert(pairs[i].0, target),
{
    let label = pairs[i].0;
    let after = pairs.update(i, (label, target));
    assert(distinct_labels(after)) by {
        assert forall|a: int, b: int| 0 <= a < b < after.len() implies (#[trigger] after[a]).0 != (
        #[trigger] after[b]).0 by {
            assert(pairs[a].0 != pairs[b].0);
        }
    }
    lemma_distinct_labels_kept(pairs);
    lemma_distinct_labels_kept(after);
    assert forall|key: Seq<char>|
        map_of(after).contains_key(key) <==> map_of(pairs).insert(label, target).contains_key(
            key,
        ) by {
        lemma_map_of_contains(after, key);
        lemma_map_of_contains(pairs, key);
        if map_of(after).contains_key(key) {
            let k = choose|k: int| 0 <= k < after.len() && (#[trigger] after[k]).0 == key;
            assert(pairs[k].0 == key);
        }
        if map_of(pairs).contains_key(key) {
            let k = choose|k: int| 0 <= k < pairs.len() && (#[trigger] pairs[k]).0 == key;
            assert(after[k].0 == key);
        }
    }
    assert forall|key: Seq<char>| map_of(after).contains_key(key) implies map_of(after)[key]
        == map_of(pairs).insert(label, target)[key] by {
        lemma_map_of_contains(after, key);
        let k = choose|k: int| 0 <= k < after.len() && (#[trigger] after[k]).0 == key;
        if k != i {
            assert(pairs[k].0 == key);
            assert(pairs[k].0 != pairs[i].0);
        }
    }
    assert(map_of(after) =~= map_of(pairs).insert(label, target));
}

/// A label and the target it stands for.
struct Entry {
    label: String,
    entity: Entity,
}

/// The entries as pairs of values, in their order.
spec fn pairs_of(entries: Seq<Entry>) -> Seq<Pair> {
    entries.map_values(|e: Entry| (e.label@, e.entity@))
}

/// A finite association from labels to targets that remembers the order in
/// which its labels were first inserted.
pub struct Mapping {
    entries: Vec<Entry>,
}

impl View for Mapping {
    type V = Map<Seq<char>, EntityView>;

    closed spec fn view(&self) -> Map<Seq<char>, EntityView> {
        map_of(self.pairs())
    }
}

impl Mapping {
    /// The entries as pairs of values, in their order.
    spec fn pairs(&self) -> Seq<Pair> {
        pairs_of(self.entries@)
    }

    /// No two entries carry the same label.
    #[verifier::type_invariant]
    spec fn well_formed(&self) -> bool {
        distinct_labels(self.pairs())
    }

    /// The labels, in the order of their first insertion.
    pub closed spec fn labels(&self) -> Seq<Seq<char>> {
        self.pairs().map_values(|p: Pair| p.0)
    }

    /// An association without labels.
    pub fn new() -> (m: Mapping)
        ensures
            m@ == Map::<Seq<char>, EntityView>::empty(),
            m.labels() == Seq::<Seq<char>>::empty(),
    {
        let m = Mapping { entries: Vec::new() };
        assert(m.labels() =~= Seq::empty());
        m
    }

    /// Index of the entry that carries `label`, if there is one.
    fn position(&self, label: &String) -> (at: Option<usize>)
        ensures
            match at {
                Some(i) => i < self.pairs().len() && self.pairs()[i as int].0 == label@,
                None => !self@.contains_key(label@),
            },
    {
        let mut i: usize = 0;
        while i < self.entries.len()
            invariant
                i <= self.entries@.len(),
                forall|k: int| 0 <= k < i ==> (#[trigger] self.pairs()[k]).0 != label@,
            decreases self.entries@.len() - i,
        {
            if self.entries[i].label == *label {
                return Some(i);
            }
            i += 1;
        }
        proof {
            lemma_map_of_contains(self.pairs(), label@);
        }
        None
    }

    /// Number of labels.
    pub fn len(&self) -> (n: usize)
        ensures
            n == self.labels().len(),
    {
        self.entries.len()
    }

    /// Associates `label` with `entity`. A label that is already present
    /// keeps its place and gets the new target.
    pub fn insert(&mut self, label: String, entity: Entity)
        ensures
            final(self)@ == old(self)@.insert(label@, entity@),
            final(self).labels() == if old(self)@.contains_key(label@) {
                old(self).labels()
            } else {
                old(self).labels().push(label@)
            },
    {
        proof {
            use_type_invariant(&*self);
        }
        let ghost before = self.pairs();
        let at = self.position(&label);
        let mut entries: Vec<Entry> = Vec::new();
        std::mem::swap(&mut entries, &mut self.entries);
        match at {
            Some(i) => {
                proof {
                    lemma_target_replaced(before, i as int, entity@);
                    lemma_map_of_contains(before, label@);
                }
                entries.set(i, Entry { label, entity });
                assert(pairs_of(entries@) =~= before.update(i as int, (label@, entity@)));
                self.entries = entries;
                assert(self.labels() =~= old(self).labels());
            },
            None => {
                entries.push(Entry { label, entity });
                proof {
                    let after = pairs_of(entries@);
                    assert(after.drop_last() =~= before);
                    assert(distinct_labels(after)) by {
                        lemma_map_of_contains(before, label@);
                        assert forall|a: int, b: int| 0 <= a < b < after.len() implies (
                        #[trigger] after[a]).0 != (#[trigger] after[b]).0 by {
                            assert(after[a] == before[a]);
                            if b < before.len() {
                                assert(after[b] == before[b]);
                            }
                        }
                    }
                }
                self.entries = entries;
                assert(self.labels() =~= old(self).labels().push(label@));
            },
        }
    }

    /// The target that `label` stands for, if it stands for one.
    pub fn get(&self, label: &str) -> (found: Option<&Entity>)
        ensures
            match found {
                Some(entity) => self@.contains_key(label@) && entity@ == self@[label@],
                None => !self@.contains_key(label@),
            },
    {
        proof {
            use_type_invariant(self);
            lemma_distinct_labels_kept(self.pairs());
        }
        let wanted = String::from_str(label);
        match self.position(&wanted) {
            Some(i) => Some(&self.entries[i].entity),
            None => None,
        }
    }

    /// The labels, in the order of their first insertion. No label occurs
    /// twice, and the labels are exactly those that stand for a target.
    pub fn keys(&self) -> (keys: Vec<String>)
        ensures
            texts(keys@) == self.labels(),
            self.labels().no_duplicates(),
            forall|label: Seq<char>| self.labels().contains(label) <==> self@.contains_key(label),
    {
        proof {
            use_type_invariant(self);
            lemma_distinct_labels_kept(self.pairs());
            lemma_labels_of_distinct(self.pairs());
            assert forall|label: Seq<char>|
                self.labels().contains(label) <==> self@.contains_key(label) by {
                lemma_labels_of_contains(self.pairs(), label);
            }
        }
        let mut keys: Vec<String> = Vec::new();
        let mut i: usize = 0;
        while i < self.entries.len()
            invariant
                i <= self.entries@.len(),
                texts(keys@) == self.labels().take(i as int),
            decreases self.entries@.len() - i,
        {
            keys.push(self.entries[i].label.clone());
            assert(self.labels().take(i + 1) =~= self.labels().take(i as int).push(
                self.entries@[i as int].label@,
            ));
            i += 1;
        }
        keys
    }
}

} // verus!
