//! Labels and the control block of a task.

use std::sync::Arc;
use vstd::prelude::*;

verus! {

/// A descriptive label for a task.
pub type TaskLabel = String;

/// A set of labels. Its view is the set of the labels' texts.
#[derive(Debug)]
pub struct LabelSet {
    labels: Vec<TaskLabel>,
}

/// The texts of `labels`, in order.
pub open spec fn label_texts(labels: Seq<TaskLabel>) -> Seq<Seq<char>> {
    labels.map_values(|label: TaskLabel| label@)
}

impl View for LabelSet {
    type V = Set<Seq<char>>;

    closed spec fn view(&self) -> Set<Seq<char>> {
        label_texts(self.labels@).to_set()
    }
}

proof fn lemma_member(labels: Seq<TaskLabel>, text: Seq<char>)
    ensures
        label_texts(labels).to_set().contains(text) <==> exists|i: int|
            0 <= i < labels.len() && (#[trigger] labels[i])@ == text,
{
    let texts = label_texts(labels);
    if exists|i: int| 0 <= i < labels.len() && (#[trigger] labels[i])@ == text {
        let i = choose|i: int| 0 <= i < labels.len() && (#[trigger] labels[i])@ == text;
        assert(texts[i] == text);
    }
    if texts.contains(text) {
        let i = choose|i: int| 0 <= i < texts.len() && texts[i] == text;
        assert(labels[i]@ == text);
    }
}

impl LabelSet {
    /// No label is stored twice.
    #[verifier::type_invariant]
    spec fn distinct(self) -> bool {
        label_texts(self.labels@).no_duplicates()
    }

    /// The set without labels.
    pub fn new() -> (set: LabelSet)
        ensures
            set@ == Set::<Seq<char>>::empty(),
    {
        let set = LabelSet { labels: Vec::new() };
        assert(set@ =~= Set::<Seq<char>>::empty());
        set
    }

    /// The set that holds `label` alone.
    pub fn single(label: TaskLabel) -> (set: LabelSet)
        ensures
            set@ == Set::<Seq<char>>::empty().insert(label@),
    {
        let mut set = LabelSet::new();
        set.insert(label);
        set
    }

    /// The set of all labels in `labels`.
    pub fn from_labels(labels: Vec<TaskLabel>) -> (set: LabelSet)
        ensures
            set@ == label_texts(labels@).to_set(),
    {
        let mut set = LabelSet::new();
        let mut i: usize = 0;
        assert(label_texts(labels@.take(0)).to_set() =~= Set::<Seq<char>>::empty());
        while i < labels.len()
            invariant
                i <= labels.len(),
                set@ == label_texts(labels@.take(i as int)).to_set(),
            decreases labels.len() - i,
        {
            set.insert(labels[i].clone());
            proof {
                let before = label_texts(labels@.take(i as int));
                let after = label_texts(labels@.take(i + 1));
                assert(after =~= before.push(labels@[i as int]@));
                assert(after.to_set() =~= before.to_set().insert(labels@[i as int]@)) by {
                    assert forall|t: Seq<char>| after.to_set().contains(t) <==> before.to_set().insert(
                        labels@[i as int]@,
                    ).contains(t) by {
                        lemma_member(labels@.take(i + 1), t);
                        lemma_member(labels@.take(i as int), t);
                        if before.to_set().contains(t) {
                            let k = choose|k: int| 0 <= k < i && (#[trigger] labels@.take(i as int)[k])@ == t;
                            assert(labels@.take(i + 1)[k]@ == t);
                        }
                        if t == labels@[i as int]@ {
                            assert(labels@.take(i + 1)[i as int]@ == t);
                        }
                        if after.to_set().contains(t) {
                            let k = choose|k: int| 0 <= k < i + 1 && (#[trigger] labels@.take(i + 1)[k])@ == t;
                            if k < i {
                                assert(labels@.take(i as int)[k]@ == t);
                            }
                        }
                    }
                }
            }
            i = i + 1;
        }
        assert(labels@.take(labels.len() as int) =~= labels@);
        set
    }

    /// Adds `label`; tells whether it was absent before.
    pub fn insert(&mut self, label: TaskLabel) -> (added: bool)
        ensures
            final(self)@ == old(self)@.insert(label@),
            added == !old(self)@.contains(label@),
    {
        proof {
            use_type_invariant(&*self);
        }
        if self.contains(&label) {
            assert(self@.insert(label@) =~= self@);
            return false;
        }
        let ghost before = self.labels@;
        let mut labels = Vec::new();
        std::mem::swap(&mut labels, &mut self.labels);
        labels.push(label);
        proof {
            let texts = label_texts(before);
            let after = label_texts(labels@);
            assert(after =~= texts.push(label@));
            assert(!texts.contains(label@));
            assert(after.no_duplicates());
            assert(after.to_set() =~= texts.to_set().insert(label@)) by {
                assert forall|t: Seq<char>| after.to_set().contains(t) <==> texts.to_set().insert(
                    label@,
                ).contains(t) by {
                    if texts.contains(t) {
                        let k = choose|k: int| 0 <= k < texts.len() && texts[k] == t;
                        assert(after[k] == t);
                    }
                    if t == label@ {
                        assert(after[texts.len() as int] == t);
                    }
                }
            }
        }
        self.labels = labels;
        true
    }

    /// Tells whether `label` is in the set.
    pub fn contains(&self, label: &TaskLabel) -> (found: bool)
        ensures
            found == self@.contains(label@),
    {
        let mut i: usize = 0;
        while i < self.labels.len()
            invariant
                i <= self.labels.len(),
                forall|k: int| 0 <= k < i ==> (#[trigger] self.labels@[k])@ != label@,
            decreases self.labels.len() - i,
        {
            if self.labels[i] == *label {
                proof {
                    lemma_member(self.labels@, label@);
                }
                return true;
            }
            i = i + 1;
        }
        proof {
            lemma_member(self.labels@, label@);
        }
        false
    }

    /// Tells whether the set holds no label.
    pub fn is_empty(&self) -> (empty: bool)
        ensures
            empty == (self@ == Set::<Seq<char>>::empty()),
    {
        proof {
            if self.labels@.len() == 0 {
                assert(self@ =~= Set::<Seq<char>>::empty());
            } else {
                lemma_member(self.labels@, self.labels@[0]@);
                assert(self@.contains(self.labels@[0]@));
            }
        }
        self.labels.len() == 0
    }

    /// The number of labels in the set.
    pub fn len(&self) -> (count: usize)
        ensures
            count == self@.len(),
    {
        proof {
            use_type_invariant(self);
            label_texts(self.labels@).unique_seq_to_set();
        }
        self.labels.len()
    }

    /// Tells whether no label is in both sets.
    pub fn is_disjoint(&self, other: &LabelSet) -> (disjoint: bool)
        ensures
            disjoint == self@.disjoint(other@),
    {
        let mut i: usize = 0;
        while i < self.labels.len()
            invariant
                i <= self.labels.len(),
                forall|k: int| 0 <= k < i ==> !other@.contains((#[trigger] self.labels@[k])@),
            decreases self.labels.len() - i,
        {
            if other.contains(&self.labels[i]) {
                proof {
                    lemma_member(self.labels@, self.labels@[i as int]@);
                }
                return false;
            }
            i = i + 1;
        }
        proof {
            assert forall|t: Seq<char>| self@.contains(t) implies !other@.contains(t) by {
                lemma_member(self.labels@, t);
            }
        }
        true
    }

    /// The labels as a vector, each once.
    pub fn to_vec(&self) -> (labels: Vec<TaskLabel>)
        ensures
            label_texts(labels@).no_duplicates(),
            label_texts(labels@).to_set() == self@,
    {
        proof {
            use_type_invariant(self);
        }
        let labels = self.labels.clone();
        assert(labels@ =~= self.labels@);
        labels
    }
}

impl Clone for LabelSet {
    fn clone(&self) -> (copy: LabelSet)
        ensures
            copy@ == self@,
    {
        proof {
            use_type_invariant(self);
        }
        let labels = self.labels.clone();
        assert(labels@ =~= self.labels@);
        LabelSet { labels }
    }
}

/// The part of a task that its handle, the registry of running tasks and
/// completion notifications share: its number and its labels.
#[derive(Debug)]
pub struct TaskCore {
    task_id: u64,
    labels: Arc<LabelSet>,
}

impl TaskCore {
    /// The number of the task.
    pub closed spec fn id(&self) -> u64 {
        self.task_id
    }

    /// The labels of the task, as they are shared.
    pub closed spec fn shared(&self) -> Arc<LabelSet> {
        self.labels
    }

    /// The texts of the task's labels.
    pub open spec fn texts(&self) -> Set<Seq<char>> {
        self.shared()@
    }

    /// A control block for task `task_id`.
    pub fn new(task_id: u64, labels: LabelSet) -> (core: TaskCore)
        ensures
            core.id() == task_id,
            core.texts() == labels@,
    {
        TaskCore { task_id, labels: Arc::new(labels) }
    }

    /// The number of the task.
    pub fn task_id(&self) -> (task_id: u64)
        ensures
            task_id == self.id(),
    {
        self.task_id
    }

    /// The labels of the task.
    pub fn labels(&self) -> (labels: &LabelSet)
        ensures
            labels@ == self.texts(),
    {
        &self.labels
    }

    /// The labels of the task, shared rather than copied.
    pub fn shared_labels(&self) -> (labels: Arc<LabelSet>)
        ensures
            labels == self.shared(),
            labels@ == self.texts(),
    {
        self.labels.clone()
    }
}

/// A text is among some labels exactly if one of them has it.
pub proof fn law_label_texts_are_the_labels(labels: Seq<TaskLabel>, text: Seq<char>)
    ensures
        label_texts(labels).to_set().contains(text) <==> exists|i: int|
            0 <= i < labels.len() && (#[trigger] labels[i])@ == text,
        label_texts(labels).len() == labels.len(),
{
    lemma_member(labels, text);
}

} // verus!
